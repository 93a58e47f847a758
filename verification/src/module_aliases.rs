//! The aliases and modules that a project's module file leads to.

use vstd::prelude::*;
use vstd::string::*;
use crate::cell_config::empty_name;
use crate::external::{
    BzlmodGeneratedCellGenerator, BzlmodGeneratedCellGeneratorModel, ExternalCellOriginModel,
    ExternalCellRegistry, register_bzlmod_cell_aliases_from_refs,
    register_bzlmod_cell_canonical_repo_name_for_cell, register_external_cell_origin,
};
use crate::module::InputError;
use crate::ordered::{
    Duplicate, KeyMap, OrderedKey, dedup, dedup_preserve_order, law_dedup, law_lookup_after_put,
    law_put_sorted, law_sorted_set_of, lemma_text_lt_irreflexive, lookup, put, set_put,
    sort_and_dedup, sorted_items, sorted_set, sorted_set_of, text_lt,
};
use crate::origins::{
    OriginJson, OriginJsonModel, external_cell_origin_from_bazel_module, module_cell_origin,
    module_urls,
};
use crate::sections::lemma_put_last;
use crate::resolved::{
    BazelCompatCellAlias, BazelCompatCellAliasModel, BazelCompatExternalModule,
    BazelCompatExternalModuleModel,
};
use crate::text::{Text, same};

verus! {

/// What a project's module file leads to: the aliases of its cells, the modules
/// outside it, and its toolchains.
#[derive(Debug, PartialEq, Eq)]
pub struct BazelModuleCellAliases {
    pub root_aliases: Vec<BazelCompatCellAlias>,
    pub cell_aliases: KeyMap<String, Vec<BazelCompatCellAlias>>,
    pub external_modules: Vec<BazelCompatExternalModule>,
    pub registered_toolchains: Vec<String>,
}

/// The model of [`BazelModuleCellAliases`].
pub struct BazelModuleCellAliasesModel {
    pub root_aliases: Seq<BazelCompatCellAliasModel>,
    pub cell_aliases: Seq<(Text, Seq<BazelCompatCellAliasModel>)>,
    pub external_modules: Seq<BazelCompatExternalModuleModel>,
    pub registered_toolchains: Seq<Text>,
}

impl DeepView for BazelModuleCellAliases {
    type V = BazelModuleCellAliasesModel;

    open spec fn deep_view(&self) -> BazelModuleCellAliasesModel {
        BazelModuleCellAliasesModel {
            root_aliases: self.root_aliases.deep_view(),
            cell_aliases: self.cell_aliases.deep_view(),
            external_modules: self.external_modules.deep_view(),
            registered_toolchains: self.registered_toolchains.deep_view(),
        }
    }
}

impl Duplicate for BazelModuleCellAliases {
    fn duplicate(&self) -> (r: Self) {
        BazelModuleCellAliases {
            root_aliases: self.root_aliases.duplicate(),
            cell_aliases: self.cell_aliases.duplicate(),
            external_modules: self.external_modules.duplicate(),
            registered_toolchains: self.registered_toolchains.duplicate(),
        }
    }
}

/// An alias with `root` as the name of the root cell read as its actual name.
pub open spec fn with_root(alias: BazelCompatCellAliasModel, root: Text) -> BazelCompatCellAliasModel {
    BazelCompatCellAliasModel {
        alias: alias.alias,
        cell_name: if alias.cell_name == "root"@ {
            root
        } else {
            alias.cell_name
        },
    }
}

impl BazelCompatCellAlias {
    /// The cell that the alias stands for, `root` read as the root cell's name.
    pub fn actual_root_cell_name<'a>(&'a self, root_cell_name: &'a str) -> (r: &'a str)
        ensures
            r@ == with_root(self.deep_view(), root_cell_name@).cell_name,
    {
        if same(self.cell_name.as_str(), "root") {
            root_cell_name
        } else {
            self.cell_name.as_str()
        }
    }

    /// The alias with `root` read as the root cell's name.
    pub fn with_actual_root_cell(&self, root_cell_name: &str) -> (r: Self)
        ensures
            r.deep_view() == with_root(self.deep_view(), root_cell_name@),
    {
        BazelCompatCellAlias {
            alias: self.alias.clone(),
            cell_name: self.actual_root_cell_name(root_cell_name).to_owned(),
        }
    }
}

/// The aliases with `root` read as the root cell's name.
pub open spec fn with_roots(aliases: Seq<BazelCompatCellAliasModel>, root: Text) -> Seq<
    BazelCompatCellAliasModel,
> {
    Seq::new(aliases.len(), |i: int| with_root(aliases[i], root))
}

/// The aliases as pairs, with `root` read as the root cell's name.
pub open spec fn alias_pairs(aliases: Seq<BazelCompatCellAliasModel>, root: Text) -> Seq<
    (Text, Text),
> {
    Seq::new(aliases.len(), |i: int| (aliases[i].alias, with_root(aliases[i], root).cell_name))
}

/// The aliases of a cell as they were written.
pub open spec fn own_aliases(
    aliases: BazelModuleCellAliasesModel,
    cell: Text,
    root: Text,
) -> Seq<BazelCompatCellAliasModel> {
    if cell == root {
        aliases.root_aliases
    } else {
        match lookup(aliases.cell_aliases, cell) {
            Some(own) => own,
            None => seq![],
        }
    }
}

/// What counts for a configuration to be the same: all but the modules.
pub open spec fn same_aliases(a: BazelModuleCellAliasesModel, b: BazelModuleCellAliasesModel) -> bool {
    a.root_aliases == b.root_aliases && a.cell_aliases == b.cell_aliases && a.registered_toolchains
        == b.registered_toolchains
}

/// For each cell the first module from `i` on, unless there is one already.
pub open spec fn first_by_cell(
    modules: Seq<BazelCompatExternalModuleModel>,
    i: int,
    done: Seq<(Text, BazelCompatExternalModuleModel)>,
) -> Seq<(Text, BazelCompatExternalModuleModel)>
    decreases modules.len() - i,
{
    if i < 0 || i >= modules.len() {
        done
    } else if lookup(done, modules[i].cell()) is Some {
        first_by_cell(modules, i + 1, done)
    } else {
        first_by_cell(
            modules,
            i + 1,
            put::<String, BazelCompatExternalModuleModel>(done, modules[i].cell(), modules[i]),
        )
    }
}

/// The values of entries, in order.
pub open spec fn values_of<K, V>(items: Seq<(K, V)>) -> Seq<V> {
    Seq::new(items.len(), |i: int| items[i].1)
}

/// The modules in the order of their cells, one for each cell.
pub open spec fn modules_by_cell(modules: Seq<BazelCompatExternalModuleModel>) -> Seq<
    BazelCompatExternalModuleModel,
> {
    values_of(first_by_cell(modules, 0, seq![]))
}

/// The lists of aliases, each in order and without repetitions.
pub open spec fn normal_lists(items: Seq<(Text, Seq<BazelCompatCellAliasModel>)>) -> Seq<
    (Text, Seq<BazelCompatCellAliasModel>),
> {
    Seq::new(
        items.len(),
        |i: int| (items[i].0, sorted_set_of::<BazelCompatCellAlias>(items[i].1)),
    )
}

/// What it comes to without repetitions and in order, but for the toolchains,
/// which keep theirs.
pub open spec fn normal(aliases: BazelModuleCellAliasesModel) -> BazelModuleCellAliasesModel {
    BazelModuleCellAliasesModel {
        root_aliases: sorted_set_of::<BazelCompatCellAlias>(aliases.root_aliases),
        cell_aliases: normal_lists(aliases.cell_aliases),
        external_modules: modules_by_cell(aliases.external_modules),
        registered_toolchains: dedup(aliases.registered_toolchains),
    }
}

/// The aliases registered for the cells from `i` on.
pub open spec fn with_cell_aliases(
    registered: Seq<(Text, Seq<(Text, Text)>)>,
    cells: Seq<(Text, Seq<BazelCompatCellAliasModel>)>,
    root: Text,
    i: int,
) -> Seq<(Text, Seq<(Text, Text)>)>
    decreases cells.len() - i,
{
    if i < 0 || i >= cells.len() {
        registered
    } else {
        with_cell_aliases(
            put::<String, Seq<(Text, Text)>>(
                registered,
                cells[i].0,
                alias_pairs(cells[i].1, root),
            ),
            cells,
            root,
            i + 1,
        )
    }
}

/// The names and the origins that are registered for the modules from `i` on,
/// and the error that ends it.
pub open spec fn with_modules(
    names: Seq<(Text, Text)>,
    origins: Seq<(Text, ExternalCellOriginModel)>,
    modules: Seq<BazelCompatExternalModuleModel>,
    json: Seq<OriginJsonModel>,
    i: int,
) -> (Seq<(Text, Text)>, Seq<(Text, ExternalCellOriginModel)>, Option<Text>)
    decreases modules.len() - i,
{
    if i < 0 || i >= modules.len() {
        (names, origins, None)
    } else {
        let module = modules[i];
        let named = put::<String, Text>(names, module.cell(), module.canonical());
        if module.cell().len() == 0 {
            (named, origins, Some(empty_name()))
        } else {
            match module_cell_origin(module, json[i], module_urls(module)) {
                Err(e) => (named, origins, Some(e)),
                Ok(origin) => with_modules(
                    named,
                    put::<String, ExternalCellOriginModel>(origins, module.cell(), origin),
                    modules,
                    json,
                    i + 1,
                ),
            }
        }
    }
}

fn duplicate_with_roots(aliases: &Vec<BazelCompatCellAlias>, root: &str) -> (r: Vec<
    BazelCompatCellAlias,
>)
    ensures
        r.deep_view() == with_roots(aliases.deep_view(), root@),
{
    let ghost all = with_roots(aliases.deep_view(), root@);
    let mut out: Vec<BazelCompatCellAlias> = Vec::new();
    let mut i: usize = 0;
    while i < aliases.len()
        invariant
            all == with_roots(aliases.deep_view(), root@),
            0 <= i <= aliases@.len(),
            out.deep_view() =~= all.take(i as int),
        decreases aliases.len() - i,
    {
        let ghost before = out.deep_view();
        assert(aliases.deep_view()[i as int] == aliases@[i as int].deep_view());
        out.push(aliases[i].with_actual_root_cell(root));
        assert(out.deep_view() =~= before.push(all[i as int]));
        i += 1;
    }
    assert(all.take(i as int) =~= all);
    out
}

fn register_aliases(
    registry: &mut ExternalCellRegistry,
    cell_name: &str,
    aliases: &Vec<BazelCompatCellAlias>,
    root: &str,
)
    ensures
        final(registry).cell_aliases.deep_view() == put::<String, Seq<(Text, Text)>>(
            old(registry).cell_aliases.deep_view(),
            cell_name@,
            alias_pairs(aliases.deep_view(), root@),
        ),
        final(registry).canonical_repo_names == old(registry).canonical_repo_names,
        final(registry).origins == old(registry).origins,
        old(registry).wf() ==> final(registry).wf(),
{
    let ghost all = alias_pairs(aliases.deep_view(), root@);
    let mut pairs: Vec<(&str, &str)> = Vec::new();
    let mut i: usize = 0;
    while i < aliases.len()
        invariant
            all == alias_pairs(aliases.deep_view(), root@),
            0 <= i <= aliases@.len(),
            pairs.deep_view() =~= all.take(i as int),
        decreases aliases.len() - i,
    {
        let ghost before = pairs.deep_view();
        assert(aliases.deep_view()[i as int] == aliases@[i as int].deep_view());
        pairs.push((aliases[i].alias.as_str(), aliases[i].actual_root_cell_name(root)));
        assert(pairs.deep_view() =~= before.push(all[i as int]));
        i += 1;
    }
    assert(all.take(i as int) =~= all);
    register_bzlmod_cell_aliases_from_refs(registry, cell_name, &pairs);
}

fn first_modules(modules: &Vec<BazelCompatExternalModule>) -> (r: Vec<BazelCompatExternalModule>)
    ensures
        r.deep_view() == modules_by_cell(modules.deep_view()),
{
    let ghost model = modules.deep_view();
    let mut found: KeyMap<String, BazelCompatExternalModule> = KeyMap::new();
    assert(found.deep_view() =~= seq![]);
    let mut i: usize = 0;
    while i < modules.len()
        invariant
            model == modules.deep_view(),
            0 <= i <= modules@.len(),
            first_by_cell(model, 0, seq![]) == first_by_cell(model, i as int, found.deep_view()),
        decreases modules.len() - i,
    {
        assert(model[i as int] == modules@[i as int].deep_view());
        let cell = modules[i].cell_name().to_owned();
        if !found.contains_key(&cell) {
            found.insert(cell, modules[i].duplicate());
        }
        i += 1;
    }
    let ghost all = values_of(found.deep_view());
    let mut out: Vec<BazelCompatExternalModule> = Vec::new();
    let mut j: usize = 0;
    while j < found.entries.len()
        invariant
            all == values_of(found.deep_view()),
            0 <= j <= found.entries@.len(),
            out.deep_view() =~= all.take(j as int),
        decreases found.entries.len() - j,
    {
        let ghost before = out.deep_view();
        assert(found.deep_view()[j as int] == found.entries@[j as int].deep_view());
        out.push(found.entries[j].1.duplicate());
        assert(out.deep_view() =~= before.push(all[j as int]));
        j += 1;
    }
    assert(all.take(j as int) =~= all);
    out
}

impl BazelModuleCellAliases {
    /// Whether the two make the same configuration.
    pub fn dice_config_equal(&self, other: &Self) -> (r: bool)
        ensures
            r == same_aliases(self.deep_view(), other.deep_view()),
    {
        self.root_aliases.same_key(&other.root_aliases) && self.cell_aliases.entries.same_key(
            &other.cell_aliases.entries,
        ) && self.registered_toolchains.same_key(&other.registered_toolchains)
    }

    /// The aliases of a cell, with `root` read as the root cell's name.
    pub fn aliases_for_cell(&self, cell_name: &str, root_cell_name: &str) -> (r: Vec<
        BazelCompatCellAlias,
    >)
        ensures
            r.deep_view() == with_roots(
                own_aliases(self.deep_view(), cell_name@, root_cell_name@),
                root_cell_name@,
            ),
    {
        if same(cell_name, root_cell_name) {
            return duplicate_with_roots(&self.root_aliases, root_cell_name);
        }
        match self.cell_aliases.get(&cell_name.to_owned()) {
            Some(aliases) => duplicate_with_roots(aliases, root_cell_name),
            None => {
                let none: Vec<BazelCompatCellAlias> = Vec::new();
                assert(none.deep_view() =~= with_roots(seq![], root_cell_name@));
                none
            },
        }
    }

    /// Puts everything in order and takes repetitions out.
    pub fn normalize(&mut self)
        ensures
            final(self).deep_view() == normal(old(self).deep_view()),
    {
        let ghost first = self.deep_view();
        self.root_aliases = sort_and_dedup(&self.root_aliases);
        let ghost all = normal_lists(first.cell_aliases);
        let mut lists: Vec<(String, Vec<BazelCompatCellAlias>)> = Vec::new();
        let mut i: usize = 0;
        while i < self.cell_aliases.entries.len()
            invariant
                self.cell_aliases.deep_view() == first.cell_aliases,
                self.external_modules.deep_view() == first.external_modules,
                self.registered_toolchains.deep_view() == first.registered_toolchains,
                self.root_aliases.deep_view() == normal(first).root_aliases,
                all == normal_lists(first.cell_aliases),
                0 <= i <= self.cell_aliases.entries@.len(),
                lists.deep_view() =~= all.take(i as int),
            decreases self.cell_aliases.entries.len() - i,
        {
            let ghost before = lists.deep_view();
            let entry = &self.cell_aliases.entries[i];
            assert(first.cell_aliases[i as int] == entry.deep_view());
            lists.push((entry.0.clone(), sort_and_dedup(&entry.1)));
            assert(lists.deep_view() =~= before.push(all[i as int]));
            i += 1;
        }
        assert(all.take(i as int) =~= all);
        self.cell_aliases = KeyMap { entries: lists };
        dedup_preserve_order(&mut self.registered_toolchains);
        self.external_modules = first_modules(&self.external_modules);
    }

    /// Registers the aliases of the cells for the resolution of labels.
    pub fn register_for_starlark_label_resolution(
        &self,
        registry: &mut ExternalCellRegistry,
        root_cell_name: &str,
    )
        ensures
            final(registry).cell_aliases.deep_view() == with_cell_aliases(
                put::<String, Seq<(Text, Text)>>(
                    old(registry).cell_aliases.deep_view(),
                    root_cell_name@,
                    alias_pairs(self.deep_view().root_aliases, root_cell_name@),
                ),
                self.deep_view().cell_aliases,
                root_cell_name@,
                0,
            ),
            final(registry).canonical_repo_names == old(registry).canonical_repo_names,
            final(registry).origins == old(registry).origins,
            old(registry).wf() ==> final(registry).wf(),
    {
        register_aliases(registry, root_cell_name, &self.root_aliases, root_cell_name);
        let ghost first = registry.cell_aliases.deep_view();
        let ghost model = self.cell_aliases.deep_view();
        let mut i: usize = 0;
        while i < self.cell_aliases.entries.len()
            invariant
                model == self.cell_aliases.deep_view(),
                0 <= i <= self.cell_aliases.entries@.len(),
                with_cell_aliases(first, model, root_cell_name@, 0) == with_cell_aliases(
                    registry.cell_aliases.deep_view(),
                    model,
                    root_cell_name@,
                    i as int,
                ),
                registry.canonical_repo_names == old(registry).canonical_repo_names,
                registry.origins == old(registry).origins,
                old(registry).wf() ==> registry.wf(),
            decreases self.cell_aliases.entries.len() - i,
        {
            let entry = &self.cell_aliases.entries[i];
            assert(model[i as int] == entry.deep_view());
            register_aliases(registry, entry.0.as_str(), &entry.1, root_cell_name);
            i += 1;
        }
    }

    /// Registers the names and the origins of the modules, whose JSON is handed
    /// in as it was read.
    pub fn register_external_cell_origins(
        &self,
        registry: &mut ExternalCellRegistry,
        json: &Vec<OriginJson>,
    ) -> (r: Result<(), InputError>)
        requires
            json@.len() == self.external_modules@.len(),
        ensures
            with_modules(
                old(registry).canonical_repo_names.deep_view(),
                old(registry).origins.deep_view(),
                self.deep_view().external_modules,
                json.deep_view(),
                0,
            ) == (
                final(registry).canonical_repo_names.deep_view(),
                final(registry).origins.deep_view(),
                match r {
                    Ok(_) => None,
                    Err(e) => Some(e.deep_view()),
                },
            ),
            final(registry).cell_aliases == old(registry).cell_aliases,
            old(registry).wf() ==> final(registry).wf(),
    {
        let ghost model = self.external_modules.deep_view();
        let ghost read = json.deep_view();
        let ghost whole = with_modules(
            registry.canonical_repo_names.deep_view(),
            registry.origins.deep_view(),
            model,
            read,
            0,
        );
        let mut i: usize = 0;
        while i < self.external_modules.len()
            invariant
                model == self.external_modules.deep_view(),
                read == json.deep_view(),
                json@.len() == self.external_modules@.len(),
                0 <= i <= self.external_modules@.len(),
                whole == with_modules(
                    registry.canonical_repo_names.deep_view(),
                    registry.origins.deep_view(),
                    model,
                    read,
                    i as int,
                ),
                whole == with_modules(
                    old(registry).canonical_repo_names.deep_view(),
                    old(registry).origins.deep_view(),
                    model,
                    read,
                    0,
                ),
                registry.cell_aliases == old(registry).cell_aliases,
                old(registry).wf() ==> registry.wf(),
            decreases self.external_modules.len() - i,
        {
            let module = &self.external_modules[i];
            assert(model[i as int] == module.deep_view());
            assert(read[i as int] == json@[i as int].deep_view());
            register_bzlmod_cell_canonical_repo_name_for_cell(
                registry,
                module.cell_name(),
                module.canonical_repo_name(),
            );
            if module.cell_name().unicode_len() == 0 {
                return Err(
                    InputError { message: "cell name or alias must not be empty".to_owned() },
                );
            }
            match external_cell_origin_from_bazel_module(module, &json[i]) {
                Ok(origin) => {
                    register_external_cell_origin(registry, module.cell_name(), origin);
                },
                Err(e) => {
                    return Err(e);
                },
            }
            i += 1;
        }
        Ok(())
    }
}

/// Whether a module lies in a directory of its own.
pub fn bzlmod_external_module_is_local(module: &BazelCompatExternalModule) -> (r: bool)
    ensures
        r == (match module.deep_view() {
            BazelCompatExternalModuleModel::Registry(m) => m.local_path is Some,
            BazelCompatExternalModuleModel::Generated(_) => false,
        }),
{
    match module {
        BazelCompatExternalModule::Registry(m) => m.local_path.is_some(),
        BazelCompatExternalModule::Generated(_) => false,
    }
}

/// A generator that looks at the machine.
pub open spec fn configures(generator: BzlmodGeneratedCellGeneratorModel) -> bool {
    generator is HostPlatform || generator is CcAutoconfToolchains || generator is CcAutoconf
        || generator is XcodeConfig || generator is ShellConfig
}

/// Whether a module is generated by looking at the machine, with its generator
/// read from JSON; none where that is not possible.
pub fn bzlmod_external_module_is_configure_repo(
    module: &BazelCompatExternalModule,
    generator: &Option<BzlmodGeneratedCellGenerator>,
) -> (r: bool)
    ensures
        r == (module.deep_view() is Generated && generator.deep_view() is Some && configures(
            generator.deep_view()->0,
        )),
{
    match module {
        BazelCompatExternalModule::Registry(_) => false,
        BazelCompatExternalModule::Generated(_) => match generator {
            Some(generator) => matches!(
                generator,
                BzlmodGeneratedCellGenerator::HostPlatform(_)
                    | BzlmodGeneratedCellGenerator::CcAutoconfToolchains(_)
                    | BzlmodGeneratedCellGenerator::CcAutoconf(_)
                    | BzlmodGeneratedCellGenerator::XcodeConfig(_)
                    | BzlmodGeneratedCellGenerator::ShellConfig(_)
            ),
            None => false,
        },
    }
}

/// What is in order and without repetitions stays as it is when that is done
/// again.
pub proof fn law_normal_is_normal(aliases: BazelModuleCellAliasesModel)
    ensures
        normal(normal(aliases)) == normal(aliases),
{
    let once = normal(aliases);
    law_sorted_set_of::<BazelCompatCellAlias>(aliases.root_aliases);
    lemma_sorted_set_of_sorted::<BazelCompatCellAlias>(once.root_aliases);
    law_dedup(aliases.registered_toolchains);
    lemma_dedup_distinct(once.registered_toolchains);
    assert(normal_lists(once.cell_aliases) =~= once.cell_aliases) by {
        assert forall|i: int| 0 <= i < once.cell_aliases.len() implies normal_lists(
            once.cell_aliases,
        )[i] == once.cell_aliases[i] by {
            law_sorted_set_of::<BazelCompatCellAlias>(aliases.cell_aliases[i].1);
            lemma_sorted_set_of_sorted::<BazelCompatCellAlias>(once.cell_aliases[i].1);
        }
    }
    let found = first_by_cell(aliases.external_modules, 0, seq![]);
    lemma_first_by_cell(aliases.external_modules, 0, seq![]);
    lemma_first_again(found, 0);
    assert(found.take(0) =~= seq![]);
}

/// The modules are under their own cells, in order.
spec fn by_cell(items: Seq<(Text, BazelCompatExternalModuleModel)>) -> bool {
    &&& sorted_items::<String, BazelCompatExternalModuleModel>(items)
    &&& forall|i: int| 0 <= i < items.len() ==> (#[trigger] items[i]).1.cell() == items[i].0
}

proof fn lemma_first_by_cell(
    modules: Seq<BazelCompatExternalModuleModel>,
    i: int,
    done: Seq<(Text, BazelCompatExternalModuleModel)>,
)
    requires
        by_cell(done),
    ensures
        by_cell(first_by_cell(modules, i, done)),
    decreases modules.len() - i,
{
    if 0 <= i < modules.len() {
        if lookup(done, modules[i].cell()) is Some {
            lemma_first_by_cell(modules, i + 1, done);
        } else {
            law_put_sorted::<String, BazelCompatExternalModuleModel>(
                done,
                modules[i].cell(),
                modules[i],
            );
            lemma_put_by_cell(done, modules[i]);
            lemma_first_by_cell(
                modules,
                i + 1,
                put::<String, BazelCompatExternalModuleModel>(done, modules[i].cell(), modules[i]),
            );
        }
    }
}

proof fn lemma_put_by_cell(
    items: Seq<(Text, BazelCompatExternalModuleModel)>,
    module: BazelCompatExternalModuleModel,
)
    requires
        forall|i: int| 0 <= i < items.len() ==> (#[trigger] items[i]).1.cell() == items[i].0,
    ensures
        ({
            let out = put::<String, BazelCompatExternalModuleModel>(items, module.cell(), module);
            forall|i: int| 0 <= i < out.len() ==> (#[trigger] out[i]).1.cell() == out[i].0
        }),
    decreases items.len(),
{
    let out = put::<String, BazelCompatExternalModuleModel>(items, module.cell(), module);
    if items.len() > 0 {
        let rest = items.skip(1);
        assert forall|i: int| 0 <= i < rest.len() implies (#[trigger] rest[i]).1.cell()
            == rest[i].0 by {
            assert(rest[i] == items[i + 1]);
        }
        lemma_put_by_cell(rest, module);
        let tail = put::<String, BazelCompatExternalModuleModel>(rest, module.cell(), module);
        assert forall|i: int| 0 <= i < out.len() implies (#[trigger] out[i]).1.cell()
            == out[i].0 by {
            if items[0].0 == module.cell() {
                if i > 0 {
                    assert(out[i] == items[i]);
                }
            } else if text_lt(module.cell(), items[0].0) {
                if i > 0 {
                    assert(out[i] == items[i - 1]);
                }
            } else if i > 0 {
                assert(out[i] == tail[i - 1]);
            } else {
                assert(out[0] == items[0]);
            }
        }
    }
}

proof fn lemma_first_again(items: Seq<(Text, BazelCompatExternalModuleModel)>, i: int)
    requires
        by_cell(items),
        0 <= i <= items.len(),
    ensures
        first_by_cell(values_of(items), i, items.take(i)) == items,
    decreases items.len() - i,
{
    if i < items.len() {
        let done = items.take(i);
        let next = items.take(i + 1);
        assert(next =~= done.push(items[i]));
        assert(sorted_items::<String, BazelCompatExternalModuleModel>(next)) by {
            assert forall|a: int, b: int|
                #![trigger next[a], next[b]]
                0 <= a < b < next.len() implies text_lt(next[a].0, next[b].0) by {
                assert(next[a] == items[a] && next[b] == items[b]);
            }
        }
        lemma_put_last(done, items[i].0, items[i].1);
        lemma_absent(done, items[i].0);
        lemma_first_again(items, i + 1);
    } else {
        assert(items.take(i) =~= items);
    }
}

proof fn lemma_absent<V>(items: Seq<(Text, V)>, k: Text)
    requires
        forall|i: int| 0 <= i < items.len() ==> text_lt((#[trigger] items[i]).0, k),
    ensures
        lookup(items, k) is None,
    decreases items.len(),
{
    if items.len() > 0 {
        assert(text_lt(items[0].0, k));
        lemma_text_lt_irreflexive(k);
        let rest = items.skip(1);
        assert forall|i: int| 0 <= i < rest.len() implies text_lt((#[trigger] rest[i]).0, k) by {
            assert(rest[i] == items[i + 1]);
        }
        lemma_absent(rest, k);
    }
}

proof fn lemma_dedup_distinct<T>(items: Seq<T>)
    requires
        items.no_duplicates(),
    ensures
        dedup(items) == items,
    decreases items.len(),
{
    if items.len() > 0 {
        let rest = items.drop_last();
        lemma_dedup_distinct(rest);
        assert forall|i: int| 0 <= i < rest.len() implies rest[i] != items.last() by {
            assert(items[i] != items[items.len() - 1]);
        }
        assert(rest.push(items.last()) =~= items);
    } else {
        assert(dedup(items) =~= items);
    }
}

proof fn lemma_sorted_set_of_sorted<K: OrderedKey>(items: Seq<K::V>)
    requires
        sorted_set::<K>(items),
    ensures
        sorted_set_of::<K>(items) == items,
    decreases items.len(),
{
    if items.len() > 0 {
        let rest = items.drop_last();
        assert forall|i: int, j: int|
            #![trigger rest[i], rest[j]]
            0 <= i < j < rest.len() implies K::key_lt(rest[i], rest[j]) by {
            assert(rest[i] == items[i] && rest[j] == items[j]);
        }
        lemma_sorted_set_of_sorted::<K>(rest);
        lemma_set_put_last::<K>(rest, items.last());
        assert(rest.push(items.last()) =~= items);
    }
}

proof fn lemma_set_put_last<K: OrderedKey>(items: Seq<K::V>, k: K::V)
    requires
        sorted_set::<K>(items.push(k)),
    ensures
        set_put::<K>(items, k) == items.push(k),
    decreases items.len(),
{
    let all = items.push(k);
    if items.len() > 0 {
        assert(all[0] == items[0] && all[items.len() as int] == k);
        assert(K::key_lt(items[0], k));
        if K::key_lt(k, items[0]) {
            K::key_lt_transitive(k, items[0], k);
        }
        K::key_lt_irreflexive(k);
        let rest = items.skip(1);
        let t = rest.push(k);
        assert forall|i: int, j: int|
            #![trigger t[i], t[j]]
            0 <= i < j < t.len() implies K::key_lt(t[i], t[j]) by {
            assert(t[i] == all[i + 1] && t[j] == all[j + 1]);
        }
        lemma_set_put_last::<K>(rest, k);
        assert(seq![items[0]] + t =~= all);
    } else {
        assert(set_put::<K>(items, k) =~= all);
    }
}

/// Of the modules of one cell the first counts.
pub proof fn law_first_module_counts(
    modules: Seq<BazelCompatExternalModuleModel>,
    i: int,
    done: Seq<(Text, BazelCompatExternalModuleModel)>,
    k: int,
)
    requires
        0 <= i <= k < modules.len(),
        sorted_items::<String, BazelCompatExternalModuleModel>(done),
        lookup(done, modules[k].cell()) is None,
        forall|j: int| i <= j < k ==> (#[trigger] modules[j]).cell() != modules[k].cell(),
    ensures
        lookup(first_by_cell(modules, i, done), modules[k].cell()) == Some(modules[k]),
    decreases modules.len() - i,
{
    let cell = modules[k].cell();
    let own = modules[i].cell();
    let next = put::<String, BazelCompatExternalModuleModel>(done, own, modules[i]);
    law_put_sorted::<String, BazelCompatExternalModuleModel>(done, own, modules[i]);
    law_lookup_after_put::<String, BazelCompatExternalModuleModel>(done, own, modules[i], cell);
    if i < k {
        if lookup(done, own) is Some {
            law_first_module_counts(modules, i + 1, done, k);
        } else {
            law_first_module_counts(modules, i + 1, next, k);
        }
    } else {
        lemma_first_stays_by_cell(modules, i + 1, next, cell);
    }
}

proof fn lemma_first_stays_by_cell(
    modules: Seq<BazelCompatExternalModuleModel>,
    i: int,
    done: Seq<(Text, BazelCompatExternalModuleModel)>,
    cell: Text,
)
    requires
        0 <= i <= modules.len(),
        sorted_items::<String, BazelCompatExternalModuleModel>(done),
        lookup(done, cell) is Some,
    ensures
        lookup(first_by_cell(modules, i, done), cell) == lookup(done, cell),
    decreases modules.len() - i,
{
    if i < modules.len() {
        let own = modules[i].cell();
        law_put_sorted::<String, BazelCompatExternalModuleModel>(done, own, modules[i]);
        law_lookup_after_put::<String, BazelCompatExternalModuleModel>(
            done,
            own,
            modules[i],
            cell,
        );
        if lookup(done, own) is Some {
            lemma_first_stays_by_cell(modules, i + 1, done, cell);
        } else {
            lemma_first_stays_by_cell(
                modules,
                i + 1,
                put::<String, BazelCompatExternalModuleModel>(done, own, modules[i]),
                cell,
            );
        }
    }
}

/// An alias for `root` is one for the root cell by its actual name; any other stands for
/// its cell.
pub proof fn law_alias_of_root(alias: BazelCompatCellAliasModel, root: Text)
    ensures
        with_root(alias, root).alias == alias.alias,
        alias.cell_name == "root"@ ==> with_root(alias, root).cell_name == root,
        alias.cell_name != "root"@ ==> with_root(alias, root) == alias,
{
}

} // verus!
