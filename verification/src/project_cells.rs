//! The cells of a project, from its root configuration.

use vstd::prelude::*;
use vstd::string::*;
use crate::cell_config::{
    ProjectCells, bazel_aliases, bazel_cell, bazel_project, cell_definitions, config_for_cwd,
    configured_aliases, empty_name, empty_name_error, enabled_cells,
    get_bazel_cell_alias_resolver_from_config, get_cell_aliases_from_config, get_cell_definitions,
    get_external_cells, register_configured_cell, root_config_with_defaults, uses_bazel_aliases,
};
use crate::compat::{
    Entry, compat_entries, configured_root, no_options, section_or_empty, synthetic_value,
    with_compat_defaults, with_entries, with_entry,
};
use crate::config::ConfigValueModel;
use crate::external::{ExternalCellOrigin, ExternalCellOriginModel, ExternalCellRegistry};
use crate::module::InputError;
use crate::ordered::{Duplicate, KeyMap, OrderedKey, lookup, put};
use crate::origins::{OriginJson, cell_origin, listed_urls};
use crate::resolved::{BazelCompatBazelrcOptions, BazelCompatBazelrcOptionsModel};
use crate::sections::{
    ConfigItems, LegacyBuckConfig, SectionItems, config_resolved, lemma_section_resolved,
    section_resolved,
};
use crate::text::{Text, concat};

verus! {

/// What the root configuration of a project says of cells: the configuration with
/// its defaults, the cells with their paths, the aliases, and the external cells
/// with their kinds.
#[derive(Debug)]
pub struct BuckConfigBasedCells {
    pub root_config: LegacyBuckConfig,
    pub definitions: Vec<(String, String)>,
    pub aliases: Vec<(String, String)>,
    pub external: Vec<(String, String)>,
}

proof fn lemma_put_value_resolved(section: SectionItems, key: Text, value: ConfigValueModel)
    requires
        section_resolved(section),
        value.is_resolved(),
    ensures
        section_resolved(put::<String, ConfigValueModel>(section, key, value)),
    decreases section.len(),
{
    let out = put::<String, ConfigValueModel>(section, key, value);
    if section.len() > 0 {
        let rest = section.skip(1);
        assert(section_resolved(rest)) by {
            assert(forall|i: int| 0 <= i < rest.len() ==> #[trigger] rest[i] == section[i + 1]);
        }
        lemma_put_value_resolved(rest, key, value);
        let tail = put::<String, ConfigValueModel>(rest, key, value);
        assert forall|i: int| 0 <= i < out.len() implies (#[trigger] out[i]).1.is_resolved() by {
            if section[0].0 == key {
                assert(i > 0 ==> out[i] == section[i]);
            } else if String::key_lt(key, section[0].0) {
                assert(i > 0 ==> out[i] == section[i - 1]);
            } else {
                assert(i > 0 ==> out[i] == tail[i - 1]);
                assert(out[0] == section[0]);
            }
        }
    }
}

proof fn lemma_put_section_resolved(config: ConfigItems, name: Text, section: SectionItems)
    requires
        config_resolved(config),
        section_resolved(section),
    ensures
        config_resolved(put::<String, SectionItems>(config, name, section)),
    decreases config.len(),
{
    let out = put::<String, SectionItems>(config, name, section);
    if config.len() > 0 {
        let rest = config.skip(1);
        assert(config_resolved(rest)) by {
            assert(forall|i: int| 0 <= i < rest.len() ==> #[trigger] rest[i] == config[i + 1]);
        }
        lemma_put_section_resolved(rest, name, section);
        let tail = put::<String, SectionItems>(rest, name, section);
        assert forall|i: int| 0 <= i < out.len() implies section_resolved((#[trigger] out[i]).1) by {
            if config[0].0 == name {
                assert(i > 0 ==> out[i] == config[i]);
            } else if String::key_lt(name, config[0].0) {
                assert(i > 0 ==> out[i] == config[i - 1]);
            } else {
                assert(i > 0 ==> out[i] == tail[i - 1]);
                assert(out[0] == config[0]);
            }
        }
    }
}

/// Entries leave no value of a configuration unresolved where none was before.
pub proof fn law_entries_resolved(config: ConfigItems, entries: Seq<Entry>, i: int)
    requires
        0 <= i,
        config_resolved(config),
    ensures
        config_resolved(with_entries(config, entries, i)),
    decreases entries.len() - i,
{
    if i < entries.len() {
        let e = entries[i];
        let section = section_or_empty(config, e.section);
        lemma_section_resolved(config, e.section);
        assert(section_resolved(section));
        lemma_put_value_resolved(section, e.key, synthetic_value(e.value));
        lemma_put_section_resolved(
            config,
            e.section,
            put::<String, ConfigValueModel>(section, e.key, synthetic_value(e.value)),
        );
        law_entries_resolved(with_entry(config, e), entries, i + 1);
    }
}

/// The root configuration with the defaults that apply.
pub open spec fn root_config(
    config: ConfigItems,
    apply_bazel_compat_defaults: bool,
    bazel_project: bool,
    options: BazelCompatBazelrcOptionsModel,
) -> ConfigItems {
    if apply_bazel_compat_defaults && bazel_project {
        with_compat_defaults(config, seq![], seq![], seq![], options)
    } else {
        config
    }
}

/// The context of every error about cells.
pub open spec fn parsing_cells(message: Text) -> Text {
    "Parsing cells: "@ + message
}

fn while_parsing_cells(e: InputError) -> (r: InputError)
    ensures
        r.deep_view() == parsing_cells(e.deep_view()),
{
    InputError { message: concat("Parsing cells: ", e.message.as_str()) }
}

impl BuckConfigBasedCells {
    /// These are the cells of the configuration.
    pub open spec fn are_of(
        self,
        config: ConfigItems,
        definitions: Seq<(Text, Text)>,
        aliases: Seq<(Text, Text)>,
    ) -> bool {
        &&& self.root_config.deep_view() == config
        &&& config_resolved(config)
        &&& self.definitions.deep_view() == definitions
        &&& self.aliases.deep_view() == aliases
        &&& self.external.deep_view() == enabled_cells(
            section_or_empty(config, "external_cells"@),
        )
    }

    /// Reads the cells off the root configuration.
    pub fn parse(
        config: LegacyBuckConfig,
        registry: &mut ExternalCellRegistry,
        apply_bazel_compat_defaults: bool,
        bazel_project: bool,
        bazelrc_options: &BazelCompatBazelrcOptions,
    ) -> (r: Result<BuckConfigBasedCells, InputError>)
        requires
            config_resolved(config.deep_view()),
        ensures
            ({
                let full = root_config(
                    config.deep_view(),
                    apply_bazel_compat_defaults,
                    bazel_project,
                    bazelrc_options.deep_view(),
                );
                match cell_definitions(full, apply_bazel_compat_defaults, bazel_project) {
                    Err(message) => r matches Err(e) && e.deep_view() == parsing_cells(message),
                    Ok(definitions) => match configured_aliases(full) {
                        Err(message) => r matches Err(e) && e.deep_view() == parsing_cells(message),
                        Ok(aliases) => r matches Ok(cells) && cells.are_of(
                            full,
                            definitions,
                            aliases,
                        ),
                    },
                }
            }),
            final(registry).canonical_repo_names.deep_view() == old(
                registry,
            ).canonical_repo_names.deep_view(),
            final(registry).cell_aliases == old(registry).cell_aliases,
            final(registry).origins == old(registry).origins,
    {
        proof {
            law_entries_resolved(
                config.deep_view(),
                compat_entries(
                    configured_root(config.deep_view()),
                    seq![],
                    seq![],
                    seq![],
                    bazelrc_options.deep_view(),
                ),
                0,
            );
        }
        let config = root_config_with_defaults(
            config,
            registry,
            apply_bazel_compat_defaults,
            bazel_project,
            bazelrc_options,
        );
        let definitions = match get_cell_definitions(
            &config,
            apply_bazel_compat_defaults,
            bazel_project,
        ) {
            Ok(definitions) => definitions,
            Err(e) => {
                return Err(while_parsing_cells(e));
            },
        };
        let aliases = match get_cell_aliases_from_config(&config) {
            Ok(aliases) => aliases,
            Err(e) => {
                return Err(while_parsing_cells(e));
            },
        };
        let external = get_external_cells(&config);
        Ok(BuckConfigBasedCells { root_config: config, definitions, aliases, external })
    }
}

/// What is known of an external cell: its name, by its alias; what the JSON in its
/// section holds; and, where it is a bundled one, whether that exists.
#[derive(Debug)]
pub struct ExternalCellAnswer {
    pub name: Result<String, InputError>,
    pub json: OriginJson,
    pub bundled: Result<(), InputError>,
}

/// Where an external cell comes from: its name with its origin.
pub open spec fn cell_named(
    external: (Text, Text),
    answer: ExternalCellAnswer,
    config: ConfigItems,
) -> Result<(Text, ExternalCellOriginModel), Text> {
    if external.0.len() == 0 {
        Err(empty_name())
    } else {
        match answer.name {
            Err(e) => Err(e.deep_view()),
            Ok(name) => match cell_origin(
                name@,
                external.1,
                config,
                answer.json.deep_view(),
                listed_urls(config, name@),
            ) {
                Err(message) => Err(message),
                Ok(origin) => Ok((name@, origin)),
            },
        }
    }
}

/// What keeps a bundled cell out.
pub open spec fn bundled_error(origin: ExternalCellOriginModel, answer: ExternalCellAnswer) -> Option<
    Text,
> {
    match answer.bundled {
        Err(e) if origin is Bundled => Some(e.deep_view()),
        _ => None,
    }
}

/// The external cells with their origins, as they are found, registered and taken in
/// one after another, up to the first error.
pub struct FoundCells {
    pub cells: Seq<(Text, ExternalCellOriginModel)>,
    pub registered: Seq<(Text, ExternalCellOriginModel)>,
    pub error: Option<Text>,
}

/// What is found of the external cells from `i` on, behind those before. Each is
/// registered, and taken in as an external cell, before the next is looked at.
pub open spec fn external_cells_found(
    external: Seq<(Text, Text)>,
    answers: Seq<ExternalCellAnswer>,
    marks: Seq<Result<(), InputError>>,
    config: ConfigItems,
    i: int,
    before: FoundCells,
) -> FoundCells
    decreases external.len() - i,
{
    if i < 0 || i >= external.len() {
        before
    } else {
        match cell_named(external[i], answers[i], config) {
            Err(message) => FoundCells { error: Some(message), ..before },
            Ok((name, origin)) => {
                let registered = put::<String, ExternalCellOriginModel>(
                    before.registered,
                    name,
                    origin,
                );
                match (bundled_error(origin, answers[i]), marks[i]) {
                    (Some(message), _) => FoundCells {
                        registered,
                        error: Some(message),
                        ..before
                    },
                    (None, Err(e)) => FoundCells {
                        registered,
                        error: Some(e.deep_view()),
                        ..before
                    },
                    (None, Ok(_)) => external_cells_found(
                        external,
                        answers,
                        marks,
                        config,
                        i + 1,
                        FoundCells { cells: before.cells.push((name, origin)), registered, ..before },
                    ),
                }
            },
        }
    }
}

impl BuckConfigBasedCells {
    /// The root configuration with the defaults that do not need the project's
    /// modules.
    pub fn root_config_with_bazel_compat_startup_defaults(&self) -> (r: LegacyBuckConfig)
        requires
            config_resolved(self.root_config.deep_view()),
        ensures
            r.deep_view() == with_compat_defaults(
                self.root_config.deep_view(),
                seq![],
                seq![],
                seq![],
                no_options(),
            ),
    {
        self.root_config.with_bazel_compat_startup_defaults()
    }

    /// Finds where one external cell comes from, and registers that. It has to be
    /// taken in as an external cell before the next one is looked at.
    pub fn configure_external_cell(
        &self,
        registry: &mut ExternalCellRegistry,
        index: usize,
        answer: &ExternalCellAnswer,
    ) -> (r: Result<(String, ExternalCellOrigin), InputError>)
        requires
            config_resolved(self.root_config.deep_view()),
            index < self.external@.len(),
        ensures
            match cell_named(
                self.external.deep_view()[index as int],
                *answer,
                self.root_config.deep_view(),
            ) {
                Err(message) => r matches Err(e) && e.deep_view() == parsing_cells(message)
                    && final(registry).origins == old(registry).origins,
                Ok((name, origin)) => final(registry).origins.deep_view() == put::<
                    String,
                    ExternalCellOriginModel,
                >(old(registry).origins.deep_view(), name, origin) && match bundled_error(
                    origin,
                    *answer,
                ) {
                    Some(message) => r matches Err(e) && e.deep_view() == parsing_cells(message),
                    None => r matches Ok(found) && found.deep_view() == (name, origin),
                },
            },
            final(registry).canonical_repo_names == old(registry).canonical_repo_names,
            final(registry).cell_aliases == old(registry).cell_aliases,
            old(registry).wf() ==> final(registry).wf(),
    {
        assert(self.external.deep_view()[index as int] == self.external@[index as int].deep_view());
        let (alias, kind) = (&self.external[index].0, &self.external[index].1);
        if alias.as_str().unicode_len() == 0 {
            return Err(while_parsing_cells(empty_name_error()));
        }
        let name = match &answer.name {
            Ok(name) => name,
            Err(e) => {
                return Err(while_parsing_cells(e.duplicate()));
            },
        };
        let origin = match register_configured_cell(
            registry,
            name.as_str(),
            kind.as_str(),
            &self.root_config,
            &answer.json,
        ) {
            Ok(origin) => origin,
            Err(e) => {
                return Err(while_parsing_cells(e));
            },
        };
        match (&origin, &answer.bundled) {
            (ExternalCellOrigin::Bundled(_), Err(e)) => Err(while_parsing_cells(e.duplicate())),
            _ => Ok((name.clone(), origin)),
        }
    }

    /// Finds where the external cells come from, and registers that. The answers are
    /// for the external cells in order, and so are the marks: what came of taking
    /// each in as an external cell.
    pub fn configure_external_cells(
        &self,
        registry: &mut ExternalCellRegistry,
        answers: &Vec<ExternalCellAnswer>,
        marks: &Vec<Result<(), InputError>>,
    ) -> (r: Result<Vec<(String, ExternalCellOrigin)>, InputError>)
        requires
            config_resolved(self.root_config.deep_view()),
            answers@.len() == self.external@.len(),
            marks@.len() == self.external@.len(),
        ensures
            ({
                let found = external_cells_found(
                    self.external.deep_view(),
                    answers@,
                    marks@,
                    self.root_config.deep_view(),
                    0,
                    FoundCells {
                        cells: seq![],
                        registered: old(registry).origins.deep_view(),
                        error: None,
                    },
                );
                &&& final(registry).origins.deep_view() == found.registered
                &&& match found.error {
                    Some(message) => r matches Err(e) && e.deep_view() == parsing_cells(message),
                    None => r matches Ok(cells) && cells.deep_view() == found.cells,
                }
            }),
            final(registry).canonical_repo_names == old(registry).canonical_repo_names,
            final(registry).cell_aliases == old(registry).cell_aliases,
            old(registry).wf() ==> final(registry).wf(),
    {
        let ghost model = self.external.deep_view();
        let ghost config = self.root_config.deep_view();
        let ghost start = FoundCells {
            cells: seq![],
            registered: registry.origins.deep_view(),
            error: None,
        };
        let ghost whole = external_cells_found(model, answers@, marks@, config, 0, start);
        let mut cells: Vec<(String, ExternalCellOrigin)> = Vec::new();
        assert(cells.deep_view() =~= seq![]);
        let mut i: usize = 0;
        while i < self.external.len()
            invariant
                model == self.external.deep_view(),
                config == self.root_config.deep_view(),
                config_resolved(config),
                answers@.len() == self.external@.len(),
                marks@.len() == self.external@.len(),
                0 <= i <= self.external@.len(),
                start.registered == old(registry).origins.deep_view(),
                start.cells == Seq::<(Text, ExternalCellOriginModel)>::empty(),
                start.error is None,
                whole == external_cells_found(model, answers@, marks@, config, 0, start),
                whole == external_cells_found(
                    model,
                    answers@,
                    marks@,
                    config,
                    i as int,
                    FoundCells {
                        cells: cells.deep_view(),
                        registered: registry.origins.deep_view(),
                        error: None,
                    },
                ),
                registry.canonical_repo_names == old(registry).canonical_repo_names,
                registry.cell_aliases == old(registry).cell_aliases,
                old(registry).wf() ==> registry.wf(),
            decreases self.external.len() - i,
        {
            assert(model[i as int] == self.external@[i as int].deep_view());
            let found = match self.configure_external_cell(registry, i, &answers[i]) {
                Ok(found) => found,
                Err(e) => {
                    return Err(e);
                },
            };
            match &marks[i] {
                Ok(_) => {},
                Err(e) => {
                    return Err(while_parsing_cells(e.duplicate()));
                },
            }
            let ghost before = cells.deep_view();
            let ghost f = found.deep_view();
            cells.push(found);
            assert(cells.deep_view() =~= before.push(f));
            i += 1;
        }
        Ok(cells)
    }
}

/// The configuration that the aliases of a cell are looked up in.
pub open spec fn cwd_config(
    config: ConfigItems,
    cell_name: Text,
    apply_bazel_compat_defaults: bool,
    bazel_project: bool,
    options: BazelCompatBazelrcOptionsModel,
) -> ConfigItems {
    if !apply_bazel_compat_defaults || !(bazel_cell(cell_name) || bazel_project) {
        config
    } else {
        with_compat_defaults(
            config,
            seq![],
            seq![],
            seq![],
            if bazel_cell(cell_name) {
                no_options()
            } else {
                options
            },
        )
    }
}

/// The aliases of a cell: all those of a Bazel cell, or those that are configured
/// and come beside the aliases of the root cell.
#[derive(Debug)]
pub enum CwdAliases {
    Bazel(KeyMap<String, String>),
    Configured(Vec<(String, String)>),
}

/// The aliases of the cell that a directory lies in, from what was read of the
/// cell's configuration.
pub fn cell_aliases_for_cwd(
    registry: &ExternalCellRegistry,
    config: LegacyBuckConfig,
    cell_name: &str,
    cells: &ProjectCells,
    apply_bazel_compat_defaults: bool,
    bazel_project: bool,
    bazelrc_options: &BazelCompatBazelrcOptions,
) -> (r: Result<CwdAliases, InputError>)
    requires
        config_resolved(config.deep_view()),
    ensures
        ({
            let full = cwd_config(
                config.deep_view(),
                cell_name@,
                apply_bazel_compat_defaults,
                bazel_project,
                bazelrc_options.deep_view(),
            );
            if apply_bazel_compat_defaults && bazel_cell(cell_name@) {
                match bazel_aliases(
                    cell_name@,
                    cells.root_cell@,
                    cells.cells.deep_view(),
                    full,
                    match lookup(registry.cell_aliases.deep_view(), cell_name@) {
                        Some(aliases) => aliases,
                        None => seq![],
                    },
                ) {
                    Err(message) => r matches Err(e) && e.deep_view() == message,
                    Ok(aliases) => r matches Ok(CwdAliases::Bazel(found)) && found.deep_view()
                        == aliases,
                }
            } else {
                match configured_aliases(full) {
                    Err(message) => r matches Err(e) && e.deep_view() == message,
                    Ok(aliases) => r matches Ok(CwdAliases::Configured(found))
                        && found.deep_view() == aliases,
                }
            }
        }),
{
    proof {
        let root = configured_root(config.deep_view());
        law_entries_resolved(
            config.deep_view(),
            compat_entries(root, seq![], seq![], seq![], bazelrc_options.deep_view()),
            0,
        );
        law_entries_resolved(
            config.deep_view(),
            compat_entries(root, seq![], seq![], seq![], no_options()),
            0,
        );
    }
    let config = config_for_cwd(
        config,
        cell_name,
        apply_bazel_compat_defaults,
        bazel_project,
        bazelrc_options,
    );
    if uses_bazel_aliases(cell_name, apply_bazel_compat_defaults) {
        match get_bazel_cell_alias_resolver_from_config(registry, cell_name, cells, &config) {
            Ok(aliases) => Ok(CwdAliases::Bazel(aliases)),
            Err(e) => Err(e),
        }
    } else {
        match get_cell_aliases_from_config(&config) {
            Ok(aliases) => Ok(CwdAliases::Configured(aliases)),
            Err(e) => Err(e),
        }
    }
}

/// Where nothing goes wrong every external cell is found, in order and each with its
/// origin; what was found before stays in front.
pub proof fn law_external_cells_found(
    external: Seq<(Text, Text)>,
    answers: Seq<ExternalCellAnswer>,
    marks: Seq<Result<(), InputError>>,
    config: ConfigItems,
    i: int,
    before: FoundCells,
)
    requires
        0 <= i <= external.len(),
        before.error is None,
    ensures
        ({
            let found = external_cells_found(external, answers, marks, config, i, before);
            &&& forall|j: int|
                0 <= j < before.cells.len() ==> j < found.cells.len() && #[trigger] found.cells[j]
                    == before.cells[j]
            &&& before.cells.len() <= found.cells.len()
            &&& found.error is None ==> found.cells.len() == before.cells.len() + external.len() - i
            &&& found.error is None ==> forall|j: int|
                i <= j < external.len() ==> {
                    let cell = found.cells[before.cells.len() + j - i];
                    cell_named(#[trigger] external[j], answers[j], config) matches Ok(named)
                        && named == cell
                }
        }),
    decreases external.len() - i,
{
    if i < external.len() {
        if let Ok((name, origin)) = cell_named(external[i], answers[i], config) {
            if bundled_error(origin, answers[i]) is None && marks[i] is Ok {
                let next = FoundCells {
                    cells: before.cells.push((name, origin)),
                    registered: put::<String, ExternalCellOriginModel>(
                        before.registered,
                        name,
                        origin,
                    ),
                    ..before
                };
                law_external_cells_found(external, answers, marks, config, i + 1, next);
                let found = external_cells_found(external, answers, marks, config, i, before);
                let n = before.cells.len() as int;
                assert(found.cells[n] == next.cells[n]);
                assert forall|j: int| 0 <= j < n implies j < found.cells.len()
                    && #[trigger] found.cells[j] == before.cells[j] by {
                    assert(next.cells[j] == before.cells[j]);
                    assert(found.cells[j] == next.cells[j]);
                }
                if found.error is None {
                    assert forall|j: int| i <= j < external.len() implies ({
                        let cell = found.cells[n + j - i];
                        cell_named(#[trigger] external[j], answers[j], config) matches Ok(named)
                            && named == cell
                    }) by {
                        if j > i {
                            assert(next.cells.len() + j - (i + 1) == n + j - i);
                        }
                    }
                }
            }
        }
    }
}

} // verus!
