//! Cells and their aliases, as a configuration has them.

use vstd::prelude::*;
use vstd::string::*;
use crate::compat::{
    empty_bazelrc_options, first_some, no_options, section_or_empty, with_compat_defaults,
};
use crate::external::{
    ExternalCellOrigin, ExternalCellOriginModel, ExternalCellRegistry, bzlmod_cell_aliases_for_cell,
    is_bzlmod_cell_name, is_repository_cell, register_external_cell_origin,
};
use crate::module::InputError;
use crate::ordered::{
    Duplicate, KeyMap, law_lookup_after_put, law_put_sorted, lemma_push_contains, lookup, put,
    result_view, sorted_items,
};
use crate::origins::{OriginJson, cell_origin, listed_urls, parse_external_cell_origin};
use crate::paths::{join_normalized, join_path};
use crate::resolved::{BazelCompatBazelrcOptions, BazelCompatCellAlias, BazelCompatExternalModule};
use crate::sections::{
    ConfigItems, LegacyBuckConfig, LegacyBuckConfigSection, SectionItems, config_resolved,
    lemma_section_resolved, section_resolved,
};
use crate::text::{Text, concat3, same};

verus! {

pub const BAZEL_MODULE_FILE: &'static str = "MODULE.bazel";

pub const PRIMARY_BUCKCONFIG: &'static str = ".buckconfig";

/// What an alias or a cell without a name is answered.
pub open spec fn empty_name() -> Text {
    "cell name or alias must not be empty"@
}

/// The error of an alias or a cell without a name.
pub fn empty_name_error() -> (r: InputError)
    ensures
        r.deep_view() == empty_name(),
{
    InputError { message: "cell name or alias must not be empty".to_owned() }
}

/// The aliases from `i` on, behind those before: each with the cell or the alias
/// that it stands for.
pub open spec fn aliases_from(section: SectionItems, i: int, done: Seq<(Text, Text)>) -> Result<
    Seq<(Text, Text)>,
    Text,
>
    decreases section.len() - i,
{
    if i < 0 || i >= section.len() {
        Ok(done)
    } else if section[i].0.len() == 0 || section[i].1.text().len() == 0 {
        Err(empty_name())
    } else {
        aliases_from(section, i + 1, done.push((section[i].0, section[i].1.text())))
    }
}

/// The configured aliases, in order.
pub open spec fn configured_aliases(config: ConfigItems) -> Result<Seq<(Text, Text)>, Text> {
    match first_some(lookup(config, "cell_aliases"@), lookup(config, "repository_aliases"@)) {
        Some(section) => aliases_from(section, 0, seq![]),
        None => Ok(seq![]),
    }
}

/// The section of the first name, or of the second.
fn either_section<'a>(config: &'a LegacyBuckConfig, first: &str, second: &str) -> (r: Option<
    &'a LegacyBuckConfigSection,
>)
    requires
        config_resolved(config.deep_view()),
    ensures
        match r {
            Some(section) => Some(section.deep_view()) == first_some(
                lookup(config.deep_view(), first@),
                lookup(config.deep_view(), second@),
            ) && section_resolved(section.deep_view()),
            None => first_some(
                lookup(config.deep_view(), first@),
                lookup(config.deep_view(), second@),
            ) is None,
        },
{
    proof {
        lemma_section_resolved(config.deep_view(), first@);
        lemma_section_resolved(config.deep_view(), second@);
    }
    match config.get_section(first) {
        Some(section) => Some(section),
        None => config.get_section(second),
    }
}

/// The configured aliases, in order.
pub fn get_cell_aliases_from_config(config: &LegacyBuckConfig) -> (r: Result<
    Vec<(String, String)>,
    InputError,
>)
    requires
        config_resolved(config.deep_view()),
    ensures
        result_view(r) == configured_aliases(config.deep_view()),
{
    let mut out: Vec<(String, String)> = Vec::new();
    assert(out.deep_view() =~= seq![]);
    let section = match either_section(config, "cell_aliases", "repository_aliases") {
        Some(section) => section,
        None => {
            return Ok(out);
        },
    };
    let entries = section.entries();
    let ghost model = entries.deep_view();
    let mut i: usize = 0;
    while i < entries.len()
        invariant
            model == entries.deep_view(),
            section_resolved(model),
            0 <= i <= entries@.len(),
            configured_aliases(config.deep_view()) == aliases_from(
                model,
                i as int,
                out.deep_view(),
            ),
        decreases entries.len() - i,
    {
        let ghost before = out.deep_view();
        assert(model[i as int] == (entries@[i as int].0@, entries@[i as int].1.deep_view()));
        let alias = entries[i].0;
        let destination = entries[i].1.as_str();
        if alias.as_str().unicode_len() == 0 || destination.unicode_len() == 0 {
            return Err(empty_name_error());
        }
        out.push((alias.clone(), destination.to_owned()));
        assert(out.deep_view() =~= before.push((alias@, destination@)));
        i += 1;
    }
    Ok(out)
}

/// The cells of a project: their paths by name, and the name of the root cell.
pub struct ProjectCells {
    pub root_cell: String,
    pub cells: KeyMap<String, String>,
}

/// What an unknown cell is answered.
pub open spec fn unknown_cell(cell: Text) -> Text {
    "unknown cell name: `"@ + cell + "`"@
}

/// The aliases with one of the cells that are always there, where it is.
pub open spec fn with_bundled(
    aliases: Seq<(Text, Text)>,
    cells: Seq<(Text, Text)>,
    alias: Text,
    cell: Text,
) -> Seq<(Text, Text)> {
    if lookup(cells, cell) is Some {
        put::<String, Text>(aliases, alias, cell)
    } else {
        aliases
    }
}

/// The aliases that every cell has.
pub open spec fn bundled_aliases(root: Text, cells: Seq<(Text, Text)>) -> Seq<(Text, Text)> {
    with_bundled(
        with_bundled(
            with_bundled(seq![], cells, "root"@, root),
            cells,
            "prelude"@,
            "prelude"@,
        ),
        cells,
        "bazel_tools"@,
        "bazel_tools"@,
    )
}

/// The aliases with the configured ones from `i` on, which have to stand for
/// repositories or for known cells.
pub open spec fn with_configured(
    aliases: Seq<(Text, Text)>,
    cells: Seq<(Text, Text)>,
    configured: Seq<(Text, Text)>,
    i: int,
) -> Result<Seq<(Text, Text)>, Text>
    decreases configured.len() - i,
{
    if i < 0 || i >= configured.len() {
        Ok(aliases)
    } else {
        let (alias, cell) = configured[i];
        if alias == "bazel_tools"@ {
            with_configured(aliases, cells, configured, i + 1)
        } else if !is_repository_cell(cell) && lookup(cells, cell) is None {
            Err(unknown_cell(cell))
        } else {
            with_configured(put::<String, Text>(aliases, alias, cell), cells, configured, i + 1)
        }
    }
}

/// The aliases with the registered ones from `i` on.
pub open spec fn with_registered(
    aliases: Seq<(Text, Text)>,
    registered: Seq<(Text, Text)>,
    i: int,
) -> Result<Seq<(Text, Text)>, Text>
    decreases registered.len() - i,
{
    if i < 0 || i >= registered.len() {
        Ok(aliases)
    } else {
        let (alias, cell) = registered[i];
        if alias == "bazel_tools"@ {
            with_registered(aliases, registered, i + 1)
        } else if alias.len() == 0 || cell.len() == 0 {
            Err(empty_name())
        } else {
            with_registered(put::<String, Text>(aliases, alias, cell), registered, i + 1)
        }
    }
}

/// A cell whose aliases are registered rather than configured.
pub open spec fn bazel_cell(cell: Text) -> bool {
    is_repository_cell(cell) || cell == "bazel_tools"@
}

/// The aliases of a cell in a Bazel project: the bundled ones, the configured
/// ones, and those that are registered for a repository.
pub open spec fn bazel_aliases(
    cell: Text,
    root: Text,
    cells: Seq<(Text, Text)>,
    config: ConfigItems,
    registered: Seq<(Text, Text)>,
) -> Result<Seq<(Text, Text)>, Text> {
    match configured_aliases(config) {
        Err(e) => Err(e),
        Ok(configured) => match with_configured(
            bundled_aliases(root, cells),
            cells,
            configured,
            0,
        ) {
            Err(e) => Err(e),
            Ok(aliases) => if bazel_cell(cell) {
                with_registered(aliases, registered, 0)
            } else {
                Ok(aliases)
            },
        },
    }
}

fn is_bazel_cell(cell_name: &str) -> (r: bool)
    ensures
        r == bazel_cell(cell_name@),
{
    is_bzlmod_cell_name(cell_name) || same(cell_name, "bazel_tools")
}

fn add_bundled(
    aliases: &mut KeyMap<String, String>,
    cells: &KeyMap<String, String>,
    alias: &str,
    cell: &str,
)
    ensures
        final(aliases).deep_view() == with_bundled(
            old(aliases).deep_view(),
            cells.deep_view(),
            alias@,
            cell@,
        ),
{
    if cells.contains_key(&cell.to_owned()) {
        aliases.insert(alias.to_owned(), cell.to_owned());
    }
}

/// The aliases of a cell in a Bazel project.
pub fn get_bazel_cell_alias_resolver_from_config(
    registry: &ExternalCellRegistry,
    cell_name: &str,
    cells: &ProjectCells,
    config: &LegacyBuckConfig,
) -> (r: Result<KeyMap<String, String>, InputError>)
    requires
        config_resolved(config.deep_view()),
    ensures
        result_view(r) == bazel_aliases(
            cell_name@,
            cells.root_cell@,
            cells.cells.deep_view(),
            config.deep_view(),
            match lookup(registry.cell_aliases.deep_view(), cell_name@) {
                Some(aliases) => aliases,
                None => seq![],
            },
        ),
{
    let ghost known = cells.cells.deep_view();
    let mut aliases: KeyMap<String, String> = KeyMap::new();
    assert(aliases.deep_view() =~= seq![]);
    add_bundled(&mut aliases, &cells.cells, "root", cells.root_cell.as_str());
    add_bundled(&mut aliases, &cells.cells, "prelude", "prelude");
    add_bundled(&mut aliases, &cells.cells, "bazel_tools", "bazel_tools");
    let ghost first = aliases.deep_view();
    let configured = get_cell_aliases_from_config(config)?;
    let ghost model = configured.deep_view();
    let ghost second = with_configured(first, known, model, 0);
    let mut i: usize = 0;
    while i < configured.len()
        invariant
            known == cells.cells.deep_view(),
            model == configured.deep_view(),
            0 <= i <= configured@.len(),
            second == with_configured(first, known, model, 0),
            second == with_configured(aliases.deep_view(), known, model, i as int),
            first == bundled_aliases(cells.root_cell@, known),
            configured_aliases(config.deep_view()) == Ok::<Seq<(Text, Text)>, Text>(model),
        decreases configured.len() - i,
    {
        let alias = &configured[i].0;
        let cell = &configured[i].1;
        assert(model[i as int] == (alias@, cell@));
        if !same(alias.as_str(), "bazel_tools") {
            if !is_bzlmod_cell_name(cell.as_str()) && !cells.cells.contains_key(cell) {
                return Err(
                    InputError { message: concat3("unknown cell name: `", cell.as_str(), "`") },
                );
            }
            aliases.insert(alias.clone(), cell.clone());
        }
        i += 1;
    }
    if is_bazel_cell(cell_name) {
        let registered = bzlmod_cell_aliases_for_cell(registry, cell_name);
        let ghost model = registered.deep_view();
        let ghost third = with_registered(aliases.deep_view(), model, 0);
        let ghost whole = bazel_aliases(
            cell_name@,
            cells.root_cell@,
            known,
            config.deep_view(),
            model,
        );
        let mut i: usize = 0;
        while i < registered.len()
            invariant
                model == registered.deep_view(),
                0 <= i <= registered@.len(),
                third == with_registered(aliases.deep_view(), model, i as int),
                third == whole,
                whole == bazel_aliases(
                    cell_name@,
                    cells.root_cell@,
                    cells.cells.deep_view(),
                    config.deep_view(),
                    model,
                ),
                model == (match lookup(registry.cell_aliases.deep_view(), cell_name@) {
                    Some(aliases) => aliases,
                    None => seq![],
                }),
            decreases registered.len() - i,
        {
            let alias = &registered[i].0;
            let cell = &registered[i].1;
            assert(model[i as int] == (alias@, cell@));
            if !same(alias.as_str(), "bazel_tools") {
                if alias.as_str().unicode_len() == 0 || cell.as_str().unicode_len() == 0 {
                    return Err(empty_name_error());
                }
                aliases.insert(alias.clone(), cell.clone());
            }
            i += 1;
        }
    }
    Ok(aliases)
}

/// A path of a cell that leads out of the project.
pub open spec fn bad_alias_path(path: Text, alias: Text) -> Text {
    "expected alias path to be a relative path, but found `"@ + path + "` for `"@ + alias + "`"@
}

/// The cells from `i` on, behind those before: each with its path from the
/// project root.
pub open spec fn definitions_from(section: SectionItems, i: int, done: Seq<(Text, Text)>) -> Result<
    Seq<(Text, Text)>,
    Text,
>
    decreases section.len() - i,
{
    if i < 0 || i >= section.len() {
        Ok(done)
    } else {
        let (alias, value) = section[i];
        match join_path(seq![], value.text()) {
            None => Err(bad_alias_path(value.text(), alias)),
            Some(path) => if alias.len() == 0 {
                Err(empty_name())
            } else {
                definitions_from(section, i + 1, done.push((alias, path)))
            },
        }
    }
}

/// The cells of a configuration. A Bazel project has a root cell even where
/// nothing is configured and no defaults apply.
pub open spec fn cell_definitions(
    config: ConfigItems,
    apply_bazel_compat_defaults: bool,
    bazel_project: bool,
) -> Result<Seq<(Text, Text)>, Text> {
    let configured = match first_some(lookup(config, "cells"@), lookup(config, "repositories"@)) {
        Some(section) => definitions_from(section, 0, seq![]),
        None => Ok(seq![]),
    };
    match configured {
        Err(e) => Err(e),
        Ok(cells) => if cells.len() == 0 && !apply_bazel_compat_defaults && bazel_project {
            Ok(seq![("root"@, seq![])])
        } else {
            Ok(cells)
        },
    }
}

/// The cells of a configuration, with their paths from the project root.
pub fn get_cell_definitions(
    config: &LegacyBuckConfig,
    apply_bazel_compat_defaults: bool,
    bazel_project: bool,
) -> (r: Result<Vec<(String, String)>, InputError>)
    requires
        config_resolved(config.deep_view()),
    ensures
        result_view(r) == cell_definitions(
            config.deep_view(),
            apply_bazel_compat_defaults,
            bazel_project,
        ),
{
    let mut out: Vec<(String, String)> = Vec::new();
    assert(out.deep_view() =~= seq![]);
    proof {
        reveal_strlit("");
    }
    assert(""@ =~= seq![]);
    match either_section(config, "cells", "repositories") {
        Some(section) => {
            let entries = section.entries();
            let ghost model = entries.deep_view();
            let ghost whole = definitions_from(model, 0, seq![]);
            let mut i: usize = 0;
            while i < entries.len()
                invariant
                    model == entries.deep_view(),
                    section_resolved(model),
                    0 <= i <= entries@.len(),
                    ""@ == Seq::<char>::empty(),
                    whole == definitions_from(model, 0, seq![]),
                    whole == definitions_from(model, i as int, out.deep_view()),
                    first_some(
                        lookup(config.deep_view(), "cells"@),
                        lookup(config.deep_view(), "repositories"@),
                    ) == Some(model),
                decreases entries.len() - i,
            {
                let ghost before = out.deep_view();
                assert(model[i as int] == (
                    entries@[i as int].0@,
                    entries@[i as int].1.deep_view(),
                ));
                let alias = entries[i].0;
                let value = entries[i].1.as_str();
                match join_normalized("", value) {
                    Some(path) => {
                        if alias.as_str().unicode_len() == 0 {
                            return Err(empty_name_error());
                        }
                        let ghost added = (alias@, path@);
                        out.push((alias.clone(), path));
                        assert(out.deep_view() =~= before.push(added));
                    },
                    None => {
                        let mut message = concat3(
                            "expected alias path to be a relative path, but found `",
                            value,
                            "` for `",
                        );
                        message.append(alias.as_str());
                        message.append("`");
                        return Err(InputError { message });
                    },
                }
                i += 1;
            }
        },
        None => {},
    }
    assert(out.deep_view().len() == out@.len());
    if out.len() == 0 && !apply_bazel_compat_defaults && bazel_project {
        out.push(("root".to_owned(), "".to_owned()));
        assert(out.deep_view() =~= seq![("root"@, seq![])]);
    }
    Ok(out)
}

/// The external cells that are not disabled, each with its kind.
pub open spec fn enabled_cells(section: SectionItems) -> Seq<(Text, Text)>
    decreases section.len(),
{
    if section.len() == 0 {
        seq![]
    } else if section.last().1.text() == "disabled"@ {
        enabled_cells(section.drop_last())
    } else {
        enabled_cells(section.drop_last()).push((section.last().0, section.last().1.text()))
    }
}

/// The external cells of a configuration that are not disabled, with their kinds.
pub fn get_external_cells(config: &LegacyBuckConfig) -> (r: Vec<(String, String)>)
    requires
        config_resolved(config.deep_view()),
    ensures
        r.deep_view() == enabled_cells(section_or_empty(config.deep_view(), "external_cells"@)),
{
    let mut out: Vec<(String, String)> = Vec::new();
    assert(out.deep_view() =~= seq![]);
    proof {
        lemma_section_resolved(config.deep_view(), "external_cells"@);
    }
    let section = match config.get_section("external_cells") {
        Some(section) => section,
        None => {
            return out;
        },
    };
    let entries = section.entries();
    let ghost model = entries.deep_view();
    let mut i: usize = 0;
    while i < entries.len()
        invariant
            model == entries.deep_view(),
            section_resolved(model),
            0 <= i <= entries@.len(),
            out.deep_view() == enabled_cells(model.take(i as int)),
        decreases entries.len() - i,
    {
        let ghost before = out.deep_view();
        proof {
            let t = model.take(i + 1);
            assert(t.drop_last() =~= model.take(i as int));
            assert(t.last() == model[i as int]);
            assert(model[i as int] == (entries@[i as int].0@, entries@[i as int].1.deep_view()));
        }
        let origin = entries[i].1.as_str();
        if !same(origin, "disabled") {
            out.push((entries[i].0.clone(), origin.to_owned()));
            assert(out.deep_view() =~= before.push((model[i as int].0, origin@)));
        }
        i += 1;
    }
    assert(model.take(i as int) =~= model);
    out
}

/// Finds where an external cell comes from and registers that.
pub fn register_configured_cell(
    registry: &mut ExternalCellRegistry,
    cell: &str,
    value: &str,
    config: &LegacyBuckConfig,
    json: &OriginJson,
) -> (r: Result<ExternalCellOrigin, InputError>)
    requires
        config_resolved(config.deep_view()),
    ensures
        result_view(r) == cell_origin(
            cell@,
            value@,
            config.deep_view(),
            json.deep_view(),
            listed_urls(config.deep_view(), cell@),
        ),
        match r {
            Ok(origin) => final(registry).origins.deep_view() == put::<
                String,
                ExternalCellOriginModel,
            >(old(registry).origins.deep_view(), cell@, origin.deep_view()),
            Err(_) => final(registry).origins == old(registry).origins,
        },
        final(registry).canonical_repo_names == old(registry).canonical_repo_names,
        final(registry).cell_aliases == old(registry).cell_aliases,
        old(registry).wf() ==> final(registry).wf(),
{
    match parse_external_cell_origin(cell, value, config, json) {
        Ok(origin) => {
            register_external_cell_origin(registry, cell, origin.duplicate());
            Ok(origin)
        },
        Err(e) => Err(e),
    }
}

/// What is next in finding out whether a directory is a Bazel project: a file to
/// look for, or the answer.
#[derive(Debug, PartialEq, Eq)]
pub enum Detection {
    Look(&'static str),
    Decided(bool),
}

/// The files that are looked for, in order.
pub open spec fn marker(i: int) -> Text {
    if i == 0 {
        BAZEL_MODULE_FILE@
    } else if i == 1 {
        PRIMARY_BUCKCONFIG@
    } else if i == 2 {
        "WORKSPACE.bazel"@
    } else {
        "WORKSPACE"@
    }
}

/// Whether a directory is a Bazel project, by which of the files it has: a
/// module file makes it one; without that a `.buckconfig` makes it none; without
/// that a workspace file makes it one.
pub open spec fn bazel_project(found: Seq<bool>) -> bool {
    found[0] || (!found[1] && (found[2] || found[3]))
}

/// What the answers so far, for the files in order, lead to.
pub fn should_apply_bazel_compat_defaults(found: &Vec<bool>) -> (r: Detection)
    ensures
        match r {
            Detection::Look(file) => found@.len() < 4 && file@ == marker(found@.len() as int)
                && forall|i: int| 0 <= i < found@.len() ==> !#[trigger] found@[i],
            Detection::Decided(yes) => forall|all: Seq<bool>|
                all.len() >= 4 && all.len() >= found@.len() && #[trigger] all.take(
                    found@.len() as int,
                ) == found@ ==> yes == bazel_project(all),
        },
{
    let ghost known = found@;
    assert forall|all: Seq<bool>, i: int|
        all.len() >= known.len() && #[trigger] all.take(known.len() as int) == known && 0 <= i
            < known.len() implies #[trigger] all[i] == known[i] by {
        assert(all.take(known.len() as int)[i] == all[i]);
    }
    if found.len() == 0 {
        return Detection::Look(BAZEL_MODULE_FILE);
    }
    if found[0] {
        return Detection::Decided(true);
    }
    if found.len() == 1 {
        return Detection::Look(PRIMARY_BUCKCONFIG);
    }
    if found[1] {
        return Detection::Decided(false);
    }
    if found.len() == 2 {
        return Detection::Look("WORKSPACE.bazel");
    }
    if found[2] {
        return Detection::Decided(true);
    }
    if found.len() == 3 {
        return Detection::Look("WORKSPACE");
    }
    Detection::Decided(found[3])
}

/// Whether it has to be found out that a cell is a Bazel project.
pub fn needs_project_detection(cell_name: &str, apply_bazel_compat_defaults: bool) -> (r: bool)
    ensures
        r == (apply_bazel_compat_defaults && !bazel_cell(cell_name@)),
{
    apply_bazel_compat_defaults && !is_bazel_cell(cell_name)
}

/// Whether a cell's aliases are those of a Bazel cell.
pub fn uses_bazel_aliases(cell_name: &str, apply_bazel_compat_defaults: bool) -> (r: bool)
    ensures
        r == (apply_bazel_compat_defaults && bazel_cell(cell_name@)),
{
    apply_bazel_compat_defaults && is_bazel_cell(cell_name)
}

/// The configuration that the aliases of a cell are looked up in: with defaults
/// where they are to be applied and the cell is a Bazel one or a Bazel project.
pub fn config_for_cwd(
    config: LegacyBuckConfig,
    cell_name: &str,
    apply_bazel_compat_defaults: bool,
    bazel_project: bool,
    bazelrc_options: &BazelCompatBazelrcOptions,
) -> (r: LegacyBuckConfig)
    requires
        config_resolved(config.deep_view()),
    ensures
        r.deep_view() == (if !apply_bazel_compat_defaults || !(bazel_cell(cell_name@)
            || bazel_project) {
            config.deep_view()
        } else {
            with_compat_defaults(
                config.deep_view(),
                seq![],
                seq![],
                seq![],
                if bazel_cell(cell_name@) {
                    no_options()
                } else {
                    bazelrc_options.deep_view()
                },
            )
        }),
{
    if !apply_bazel_compat_defaults {
        return config;
    }
    let aliases: Vec<BazelCompatCellAlias> = Vec::new();
    let toolchains: Vec<String> = Vec::new();
    assert(aliases.deep_view() =~= seq![]);
    assert(toolchains.deep_view() =~= seq![]);
    if is_bazel_cell(cell_name) {
        config.with_bazel_compat_cell_defaults(&aliases, &toolchains, &empty_bazelrc_options())
    } else if bazel_project {
        config.with_bazel_compat_cell_defaults(&aliases, &toolchains, bazelrc_options)
    } else {
        config
    }
}

/// The configuration of the project's root: with defaults where they are to be
/// applied and the root is a Bazel project.
pub fn root_config_with_defaults(
    config: LegacyBuckConfig,
    registry: &mut ExternalCellRegistry,
    apply_bazel_compat_defaults: bool,
    bazel_project: bool,
    bazelrc_options: &BazelCompatBazelrcOptions,
) -> (r: LegacyBuckConfig)
    requires
        config_resolved(config.deep_view()),
    ensures
        r.deep_view() == (if apply_bazel_compat_defaults && bazel_project {
            with_compat_defaults(
                config.deep_view(),
                seq![],
                seq![],
                seq![],
                bazelrc_options.deep_view(),
            )
        } else {
            config.deep_view()
        }),
        final(registry).canonical_repo_names.deep_view() == old(
            registry,
        ).canonical_repo_names.deep_view(),
        final(registry).cell_aliases == old(registry).cell_aliases,
        final(registry).origins == old(registry).origins,
{
    if apply_bazel_compat_defaults && bazel_project {
        let aliases: Vec<BazelCompatCellAlias> = Vec::new();
        let modules: Vec<BazelCompatExternalModule> = Vec::new();
        let toolchains: Vec<String> = Vec::new();
        assert(aliases.deep_view() =~= seq![]);
        assert(modules.deep_view() =~= seq![]);
        assert(toolchains.deep_view() =~= seq![]);
        config.with_bazel_compat_defaults(
            registry,
            &aliases,
            &modules,
            &toolchains,
            bazelrc_options,
        )
    } else {
        config
    }
}

/// The configuration of one cell: that of a Bazel cell is made of defaults alone,
/// that of a Bazel project has defaults, and any other is what was read.
pub fn single_cell_config(
    config: LegacyBuckConfig,
    cell_name: &str,
    bazel_project: bool,
    bazelrc_options: &BazelCompatBazelrcOptions,
) -> (r: LegacyBuckConfig)
    requires
        config_resolved(config.deep_view()),
    ensures
        r.deep_view() == (if bazel_cell(cell_name@) {
            with_compat_defaults(seq![], seq![], seq![], seq![], no_options())
        } else if bazel_project {
            with_compat_defaults(
                config.deep_view(),
                seq![],
                seq![],
                seq![],
                bazelrc_options.deep_view(),
            )
        } else {
            config.deep_view()
        }),
{
    let aliases: Vec<BazelCompatCellAlias> = Vec::new();
    let toolchains: Vec<String> = Vec::new();
    assert(aliases.deep_view() =~= seq![]);
    assert(toolchains.deep_view() =~= seq![]);
    if is_bazel_cell(cell_name) {
        LegacyBuckConfig::empty().with_bazel_compat_cell_defaults(
            &aliases,
            &toolchains,
            &empty_bazelrc_options(),
        )
    } else if bazel_project {
        config.with_bazel_compat_cell_defaults(&aliases, &toolchains, bazelrc_options)
    } else {
        config
    }
}

/// A directory with a module file is a Bazel project. Without one it is none where it has a
/// `.buckconfig`, and one where it has no such file but a workspace file.
pub proof fn law_bazel_project(found: Seq<bool>)
    requires
        found.len() == 4,
    ensures
        marker(0) == "MODULE.bazel"@,
        marker(1) == ".buckconfig"@,
        found[0] ==> bazel_project(found),
        !found[0] && found[1] ==> !bazel_project(found),
        !found[0] && !found[1] ==> (bazel_project(found) <==> found[2] || found[3]),
{
}

/// Each entry of the section is a cell, in order, at the path that it gives.
pub proof fn law_cells_defined(section: SectionItems, i: int, done: Seq<(Text, Text)>)
    requires
        0 <= i <= section.len(),
    ensures
        definitions_from(section, i, done) matches Ok(cells) ==> {
            &&& cells.len() == done.len() + section.len() - i
            &&& forall|j: int| 0 <= j < done.len() ==> #[trigger] cells[j] == done[j]
            &&& forall|j: int|
                i <= j < section.len() ==> cells[done.len() + j - i].0 == (
                #[trigger] section[j]).0 && Some(cells[done.len() + j - i].1) == join_path(
                    seq![],
                    section[j].1.text(),
                )
        },
    decreases section.len() - i,
{
    if i < section.len() {
        let (alias, value) = section[i];
        if let Some(path) = join_path(seq![], value.text()) {
            let next = done.push((alias, path));
            law_cells_defined(section, i + 1, next);
            if let Ok(cells) = definitions_from(section, i, done) {
                assert(cells[done.len() as int] == next[done.len() as int]);
                assert forall|j: int| 0 <= j < done.len() implies #[trigger] cells[j]
                    == done[j] by {
                    assert(cells[j] == next[j]);
                }
                assert forall|j: int| i <= j < section.len() implies cells[done.len() + j - i].0
                    == (#[trigger] section[j]).0 && Some(cells[done.len() + j - i].1) == join_path(
                    seq![],
                    section[j].1.text(),
                ) by {
                    if j > i {
                        assert(cells[next.len() + j - (i + 1)].0 == section[j].0);
                    }
                }
            }
        }
    }
}

/// The external cells are the entries that do not say `disabled`, each of the kind that it
/// says.
pub proof fn law_external_cells(section: SectionItems, cell: (Text, Text))
    ensures
        enabled_cells(section).contains(cell) <==> cell.1 != "disabled"@ && exists|i: int|
            0 <= i < section.len() && (#[trigger] section[i]).0 == cell.0 && section[i].1.text()
                == cell.1,
    decreases section.len(),
{
    if section.len() > 0 {
        let init = section.drop_last();
        law_external_cells(init, cell);
        assert(section.last() == section[section.len() - 1]);
        assert forall|i: int| 0 <= i < init.len() implies section[i] == #[trigger] init[i] by {}
        lemma_push_contains(
            enabled_cells(init),
            (section.last().0, section.last().1.text()),
            cell,
        );
        if exists|i: int|
            0 <= i < init.len() && (#[trigger] init[i]).0 == cell.0 && init[i].1.text() == cell.1 {
            let i = choose|i: int|
                0 <= i < init.len() && (#[trigger] init[i]).0 == cell.0 && init[i].1.text()
                    == cell.1;
            assert(section[i].0 == cell.0);
        }
        if exists|i: int|
            0 <= i < section.len() && (#[trigger] section[i]).0 == cell.0 && section[i].1.text()
                == cell.1 {
            let i = choose|i: int|
                0 <= i < section.len() && (#[trigger] section[i]).0 == cell.0 && section[i].1.text()
                    == cell.1;
            if i < init.len() {
                assert(init[i].0 == cell.0);
            }
        }
    } else {
        assert(!enabled_cells(section).contains(cell));
    }
}

/// A configured alias stands for the cell that it is configured for, the last time where
/// there are several; one that none is configured for is left as it was, and so is the one
/// of the built-in tools.
pub proof fn law_configured_alias(
    aliases: Seq<(Text, Text)>,
    cells: Seq<(Text, Text)>,
    configured: Seq<(Text, Text)>,
    i: int,
    alias: Text,
)
    requires
        0 <= i <= configured.len(),
        sorted_items::<String, Text>(aliases),
    ensures
        with_configured(aliases, cells, configured, i) matches Ok(out) ==> {
            &&& sorted_items::<String, Text>(out)
            &&& alias == "bazel_tools"@ || (forall|j: int|
                i <= j < configured.len() ==> (#[trigger] configured[j]).0 != alias) ==> lookup(
                out,
                alias,
            ) == lookup(aliases, alias)
            &&& alias != "bazel_tools"@ ==> forall|k: int|
                i <= k < configured.len() && (#[trigger] configured[k]).0 == alias && (forall|
                    j: int,
                |
                    k < j < configured.len() ==> (#[trigger] configured[j]).0 != alias) ==> lookup(
                    out,
                    alias,
                ) == Some(configured[k].1)
        },
    decreases configured.len() - i,
{
    if i < configured.len() {
        let (own, cell) = configured[i];
        let next = put::<String, Text>(aliases, own, cell);
        law_put_sorted::<String, Text>(aliases, own, cell);
        law_lookup_after_put::<String, Text>(aliases, own, cell, alias);
        assert(configured[i].0 == own);
        if own == "bazel_tools"@ {
            law_configured_alias(aliases, cells, configured, i + 1, alias);
        } else {
            law_configured_alias(next, cells, configured, i + 1, alias);
        }
    }
}

} // verus!
