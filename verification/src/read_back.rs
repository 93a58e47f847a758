//! What is written into a configuration for a module reads back as the module's
//! origin.

use vstd::prelude::*;
use vstd::string::*;
use crate::calls::digits_value;
use crate::compat::{
    Entry, cell_aliases_entries, cell_section, cells_entries, compat_entries, config_in_order,
    configured_root, external_cells_entries, fixed_entries, law_entry_in_order, law_entry_lookup,
    list_entry, module_entries, modules_entries, option_entries, section_or_empty, synthetic_value,
    with_compat_defaults, with_entries, with_entry,
};
use crate::config::ConfigValueModel;
use crate::external::{BZLMOD_EXTERNAL_CELL_KIND, BZLMOD_GENERATED_EXTERNAL_CELL_KIND};
use crate::ordered::{law_lookup_after_put, lookup, put};
use crate::origins::{
    OriginJsonModel, cell_origin, json_texts, listed_urls, module_cell_origin, module_urls, number,
    number_from,
};
use crate::resolved::{
    BazelCompatBazelrcOptionsModel, BazelCompatCellAliasModel, BazelCompatExternalModuleModel,
    BazelCompatGeneratedModuleModel, BazelCompatRegistryModuleModel,
};
use crate::sections::{ConfigItems, SectionItems, config_value};
use crate::text::{Text, is_ascii_digit, nat_text};

verus! {

/// No entry is for the section.
pub open spec fn spares(entries: Seq<Entry>, section: Text) -> bool {
    forall|i: int| 0 <= i < entries.len() ==> (#[trigger] entries[i]).section != section
}

/// Entries one after another apply as the first ones and then the others.
pub proof fn law_entries_in_turn(config: ConfigItems, a: Seq<Entry>, b: Seq<Entry>, i: int)
    requires
        0 <= i <= a.len(),
    ensures
        with_entries(config, a + b, i) == with_entries(with_entries(config, a, i), b, 0),
    decreases a.len() - i,
{
    let all = a + b;
    if i < a.len() {
        assert(all[i] == a[i]);
        law_entries_in_turn(with_entry(config, a[i]), a, b, i + 1);
    } else {
        lemma_entries_behind(config, a, b, 0);
    }
}

proof fn lemma_entries_behind(config: ConfigItems, a: Seq<Entry>, b: Seq<Entry>, i: int)
    requires
        0 <= i <= b.len(),
    ensures
        with_entries(config, a + b, a.len() + i) == with_entries(config, b, i),
    decreases b.len() - i,
{
    let all = a + b;
    if i < b.len() {
        assert(all[a.len() + i] == b[i]);
        lemma_entries_behind(with_entry(config, b[i]), a, b, i + 1);
    }
}

/// Entries keep a configuration in order, and leave the sections alone that they
/// are not for.
pub proof fn law_entries_spare(config: ConfigItems, entries: Seq<Entry>, i: int, section: Text)
    requires
        0 <= i,
        config_in_order(config),
        spares(entries, section),
    ensures
        config_in_order(with_entries(config, entries, i)),
        section_or_empty(with_entries(config, entries, i), section) == section_or_empty(
            config,
            section,
        ),
    decreases entries.len() - i,
{
    if i < entries.len() {
        let e = entries[i];
        let own = section_or_empty(config, e.section);
        let next = put::<String, ConfigValueModel>(own, e.key, synthetic_value(e.value));
        law_entry_in_order(config, e);
        law_lookup_after_put::<String, SectionItems>(config, e.section, next, section);
        law_entries_spare(with_entry(config, e), entries, i + 1, section);
    }
}

/// The value that the entries from `i` on give a key.
pub open spec fn given(entries: Seq<Entry>, key: Text, i: int) -> Option<Text>
    decreases entries.len() - i,
{
    if i < 0 || i >= entries.len() {
        None
    } else if entries[i].key == key {
        Some(entries[i].value)
    } else {
        given(entries, key, i + 1)
    }
}

/// What is read of a section after defaults for it: what was there, or what they
/// give.
pub proof fn law_defaults_read_back(
    config: ConfigItems,
    entries: Seq<Entry>,
    i: int,
    section: Text,
    key: Text,
)
    requires
        0 <= i,
        config_in_order(config),
        forall|j: int|
            0 <= j < entries.len() ==> (#[trigger] entries[j]).section == section
                && !entries[j].replaces,
    ensures
        config_in_order(with_entries(config, entries, i)),
        lookup(section_or_empty(with_entries(config, entries, i), section), key) == (match lookup(
            section_or_empty(config, section),
            key,
        ) {
            Some(value) => Some(value),
            None => match given(entries, key, i) {
                Some(text) => Some(synthetic_value(text)),
                None => None,
            },
        }),
    decreases entries.len() - i,
{
    if i < entries.len() {
        let e = entries[i];
        law_entry_in_order(config, e);
        law_entry_lookup(config, e, section, key);
        law_defaults_read_back(with_entry(config, e), entries, i + 1, section, key);
    }
}

/// The section of a cell is none of those with fixed names.
proof fn lemma_cell_section(cell: Text)
    ensures
        cell_section(cell) != "cells"@,
        cell_section(cell) != "cell_aliases"@,
        cell_section(cell) != "external_cells"@,
        cell_section(cell) != "buildfile"@,
        cell_section(cell) != "parser"@,
        cell_section(cell) != "bazel"@,
        cell_section(cell) != "buck2"@,
{
    reveal_strlit("external_cell_");
    reveal_strlit("cells");
    reveal_strlit("cell_aliases");
    reveal_strlit("external_cells");
    reveal_strlit("buildfile");
    reveal_strlit("parser");
    reveal_strlit("bazel");
    reveal_strlit("buck2");
    let s = cell_section(cell);
    assert(s[0] == 'e');
    assert(s[13] == '_');
}

proof fn lemma_cell_section_injective(a: Text, b: Text)
    requires
        cell_section(a) == cell_section(b),
    ensures
        a == b,
{
    let n = "external_cell_"@.len() as int;
    assert(cell_section(a).skip(n) =~= a);
    assert(cell_section(b).skip(n) =~= b);
}

proof fn lemma_modules_split(modules: Seq<BazelCompatExternalModuleModel>, k: int)
    requires
        0 <= k < modules.len(),
    ensures
        modules_entries(modules) == modules_entries(modules.take(k)) + module_entries(modules[k])
            + modules_entries(modules.skip(k + 1)),
    decreases modules.len(),
{
    let n = modules.len() - 1;
    let rest = modules.drop_last();
    if k == n {
        assert(rest =~= modules.take(k));
        assert(modules.skip(k + 1) =~= seq![]);
        assert(modules_entries(modules) =~= modules_entries(modules.take(k)) + module_entries(
            modules[k],
        ) + modules_entries(modules.skip(k + 1)));
    } else {
        lemma_modules_split(rest, k);
        let tail = modules.skip(k + 1);
        assert(rest.take(k) =~= modules.take(k));
        assert(rest.skip(k + 1) =~= tail.drop_last());
        assert(tail.last() == modules.last());
        assert(modules_entries(modules) =~= modules_entries(modules.take(k)) + module_entries(
            modules[k],
        ) + modules_entries(tail));
    }
}

/// The entries of modules with other cells spare the section of a cell.
proof fn lemma_others_spare(modules: Seq<BazelCompatExternalModuleModel>, cell: Text)
    requires
        forall|i: int| 0 <= i < modules.len() ==> (#[trigger] modules[i]).cell() != cell,
    ensures
        spares(modules_entries(modules), cell_section(cell)),
    decreases modules.len(),
{
    if modules.len() > 0 {
        let rest = modules.drop_last();
        assert forall|i: int| 0 <= i < rest.len() implies (#[trigger] rest[i]).cell() != cell by {
            assert(rest[i] == modules[i]);
        }
        lemma_others_spare(rest, cell);
        let last = modules[modules.len() - 1];
        if cell_section(last.cell()) == cell_section(cell) {
            lemma_cell_section_injective(last.cell(), cell);
        }
        lemma_module_entries(last);
    }
}

/// The entries of a module are defaults for the section of its cell.
proof fn lemma_module_entries(module: BazelCompatExternalModuleModel)
    ensures
        forall|j: int|
            0 <= j < module_entries(module).len() ==> (
            #[trigger] module_entries(module)[j]).section == cell_section(module.cell())
                && !module_entries(module)[j].replaces,
{
}

/// What every module has in common: the entries apart from those of the modules
/// spare the section of any cell.
proof fn lemma_common_spare(
    root: Option<Text>,
    aliases: Seq<BazelCompatCellAliasModel>,
    modules: Seq<BazelCompatExternalModuleModel>,
    toolchains: Seq<Text>,
    options: BazelCompatBazelrcOptionsModel,
    cell: Text,
)
    ensures
        spares(
            cells_entries(root, modules) + cell_aliases_entries(root, aliases)
                + external_cells_entries(modules) + fixed_entries(root) + list_entry(
                "registered_toolchains"@,
                toolchains,
                ","@,
            ) + option_entries(options),
            cell_section(cell),
        ),
{
    let s = cell_section(cell);
    lemma_cell_section(cell);
    assert(spares(cells_entries(root, modules), s));
    assert(spares(cell_aliases_entries(root, aliases), s));
    assert(spares(external_cells_entries(modules), s));
    assert(spares(fixed_entries(root), s));
    assert(spares(list_entry("registered_toolchains"@, toolchains, ","@), s));
    assert(spares(option_entries(options), s));
}

/// What is read of the section of a module's cell: what its entries give.
pub proof fn law_module_section(
    config: ConfigItems,
    aliases: Seq<BazelCompatCellAliasModel>,
    modules: Seq<BazelCompatExternalModuleModel>,
    toolchains: Seq<Text>,
    options: BazelCompatBazelrcOptionsModel,
    k: int,
    key: Text,
)
    requires
        config_in_order(config),
        0 <= k < modules.len(),
        forall|i: int, j: int|
            0 <= i < j < modules.len() ==> (#[trigger] modules[i]).cell() != (
            #[trigger] modules[j]).cell(),
        lookup(config, cell_section(modules[k].cell())) is None,
    ensures
        config_value(
            with_compat_defaults(config, aliases, modules, toolchains, options),
            cell_section(modules[k].cell()),
            key,
        ) == given(module_entries(modules[k]), key, 0),
{
    let root = configured_root(config);
    let cell = modules[k].cell();
    let s = cell_section(cell);
    let common = cells_entries(root, modules) + cell_aliases_entries(root, aliases)
        + external_cells_entries(modules) + fixed_entries(root) + list_entry(
        "registered_toolchains"@,
        toolchains,
        ","@,
    ) + option_entries(options);
    let before = modules_entries(modules.take(k));
    let own = module_entries(modules[k]);
    let after = modules_entries(modules.skip(k + 1));
    lemma_modules_split(modules, k);
    assert(compat_entries(root, aliases, modules, toolchains, options) =~= common + (before + own
        + after));
    lemma_common_spare(root, aliases, modules, toolchains, options, cell);
    assert forall|i: int| 0 <= i < modules.take(k).len() implies (
    #[trigger] modules.take(k)[i]).cell() != cell by {
        assert(modules.take(k)[i] == modules[i]);
        assert(modules[i].cell() != modules[k].cell());
    }
    lemma_others_spare(modules.take(k), cell);
    let rest = modules.skip(k + 1);
    assert forall|i: int| 0 <= i < rest.len() implies (#[trigger] rest[i]).cell() != cell by {
        assert(rest[i] == modules[k + 1 + i]);
        assert(modules[k].cell() != modules[k + 1 + i].cell());
    }
    lemma_others_spare(rest, cell);
    let c1 = with_entries(config, common, 0);
    let c2 = with_entries(c1, before, 0);
    let c3 = with_entries(c2, own, 0);
    let c4 = with_entries(c3, after, 0);
    law_entries_in_turn(config, common, before + own + after, 0);
    law_entries_in_turn(c1, before + own, after, 0);
    law_entries_in_turn(c1, before, own, 0);
    law_entries_spare(config, common, 0, s);
    law_entries_spare(c1, before, 0, s);
    lemma_module_entries(modules[k]);
    law_defaults_read_back(c2, own, 0, s, key);
    law_entries_spare(c3, after, 0, s);
    assert(section_or_empty(c4, s) == section_or_empty(c3, s));
    assert(lookup(section_or_empty(c2, s), key) is None);
}

/// The number that a decimal text stands for reads back.
pub proof fn law_number_round_trip(n: u32)
    ensures
        number(nat_text(n as nat)) == Ok::<u32, Text>(n),
{
    let s = nat_text(n as nat);
    lemma_nat_text(n as nat);
    assert(s.take(0).len() == 0);
    lemma_number_from(s, 0);
}

/// The text of a number is decimal digits that stand for it.
proof fn lemma_nat_text(n: nat)
    ensures
        nat_text(n).len() > 0,
        forall|i: int| 0 <= i < nat_text(n).len() ==> is_ascii_digit(#[trigger] nat_text(n)[i]),
        digits_value(nat_text(n)) == n,
    decreases n,
{
    let s = nat_text(n);
    reveal_with_fuel(digits_value, 2);
    if n >= 10 {
        lemma_nat_text(n / 10);
        assert(s.drop_last() =~= nat_text(n / 10));
        assert forall|i: int| 0 <= i < s.len() implies is_ascii_digit(#[trigger] s[i]) by {
            if i < s.len() - 1 {
                assert(s[i] == nat_text(n / 10)[i]);
            }
        }
    } else {
        assert(s.drop_last() =~= seq![]);
    }
}

proof fn lemma_number_from(s: Text, i: int)
    requires
        0 <= i <= s.len(),
        forall|j: int| 0 <= j < s.len() ==> is_ascii_digit(#[trigger] s[j]),
        0 <= digits_value(s) <= u32::MAX,
    ensures
        number_from(s, i, digits_value(s.take(i))) == Ok::<u32, Text>(digits_value(s) as u32),
    decreases s.len() - i,
{
    if i < s.len() {
        let t = s.take(i + 1);
        assert(t.drop_last() =~= s.take(i));
        assert(t.last() == s[i]);
        lemma_number_from(s, i + 1);
        lemma_prefix_value(s, i + 1);
    } else {
        assert(s.take(i) =~= s);
    }
}

proof fn lemma_prefix_value(s: Text, i: int)
    requires
        0 <= i <= s.len(),
        forall|j: int| 0 <= j < s.len() ==> is_ascii_digit(#[trigger] s[j]),
    ensures
        0 <= digits_value(s.take(i)) <= digits_value(s),
    decreases s.len() - i,
{
    lemma_value_nonnegative(s.take(i));
    if i < s.len() {
        lemma_prefix_value(s, i + 1);
        let t = s.take(i + 1);
        assert(t.drop_last() =~= s.take(i));
        assert(t.last() == s[i]);
    } else {
        assert(s.take(i) =~= s);
    }
}

proof fn lemma_value_nonnegative(s: Text)
    requires
        forall|j: int| 0 <= j < s.len() ==> is_ascii_digit(#[trigger] s[j]),
    ensures
        digits_value(s) >= 0,
    decreases s.len(),
{
    if s.len() > 0 {
        let rest = s.drop_last();
        assert forall|j: int| 0 <= j < rest.len() implies is_ascii_digit(#[trigger] rest[j]) by {
            assert(rest[j] == s[j]);
        }
        assert(is_ascii_digit(s[s.len() - 1]));
        lemma_value_nonnegative(rest);
    }
}

/// The keys of a cell's section are all different.
proof fn lemma_keys_differ()
    ensures
        "module_name"@.len() == 11,
        "version"@.len() == 7 && "version"@[0] == 'v',
        "canonical_repo_name"@.len() == 19,
        "url"@.len() == 3,
        "urls"@.len() == 4,
        "integrity"@.len() == 9 && "integrity"@[0] == 'i',
        "patches"@.len() == 7 && "patches"@[0] == 'p',
        "overlays"@.len() == 8,
        "strip_prefix"@.len() == 12 && "strip_prefix"@[0] == 's',
        "local_path"@.len() == 10,
        "archive_type"@.len() == 12 && "archive_type"@[0] == 'a',
        "patch_strip"@.len() == 11 && "patch_strip"@[0] == 'p',
        "module_name"@[0] == 'm',
        "generator"@.len() == 9 && "generator"@[0] == 'g',
{
    reveal_strlit("module_name");
    reveal_strlit("version");
    reveal_strlit("canonical_repo_name");
    reveal_strlit("url");
    reveal_strlit("urls");
    reveal_strlit("integrity");
    reveal_strlit("patches");
    reveal_strlit("overlays");
    reveal_strlit("strip_prefix");
    reveal_strlit("local_path");
    reveal_strlit("archive_type");
    reveal_strlit("patch_strip");
    reveal_strlit("generator");
}

/// What the entries of a registry's module give each key.
proof fn lemma_registry_given(m: BazelCompatRegistryModuleModel)
    ensures
        ({
            let e = module_entries(BazelCompatExternalModuleModel::Registry(m));
            &&& given(e, "module_name"@, 0) == Some(m.module_name)
            &&& given(e, "version"@, 0) == Some(m.version)
            &&& given(e, "canonical_repo_name"@, 0) == Some(m.canonical_repo_name)
            &&& given(e, "url"@, 0) == Some(m.url)
            &&& given(e, "urls"@, 0) == Some(m.urls_json)
            &&& given(e, "integrity"@, 0) == Some(m.integrity)
            &&& given(e, "patches"@, 0) == Some(m.patches_json)
            &&& given(e, "overlays"@, 0) == Some(m.overlays_json)
            &&& given(e, "strip_prefix"@, 0) == m.strip_prefix
            &&& given(e, "local_path"@, 0) == m.local_path
            &&& given(e, "archive_type"@, 0) == m.archive_type
            &&& given(e, "patch_strip"@, 0) == Some(nat_text(m.patch_strip as nat))
            &&& given(e, "generator"@, 0) is None
        }),
{
    lemma_keys_differ();
    reveal_with_fuel(given, 14);
}

/// What the entries of a generated module give each key.
proof fn lemma_generated_given(m: BazelCompatGeneratedModuleModel)
    ensures
        ({
            let e = module_entries(BazelCompatExternalModuleModel::Generated(m));
            &&& given(e, "canonical_repo_name"@, 0) == Some(m.canonical_repo_name)
            &&& given(e, "generator"@, 0) == Some(m.generator_json)
            &&& given(e, "urls"@, 0) is None
        }),
{
    lemma_keys_differ();
    reveal_with_fuel(given, 4);
}

/// The kinds of cells are all different.
proof fn lemma_kinds_differ()
    ensures
        BZLMOD_EXTERNAL_CELL_KIND@ != "bundled"@,
        BZLMOD_EXTERNAL_CELL_KIND@ != "git"@,
        BZLMOD_GENERATED_EXTERNAL_CELL_KIND@ != "bundled"@,
        BZLMOD_GENERATED_EXTERNAL_CELL_KIND@ != "git"@,
        BZLMOD_EXTERNAL_CELL_KIND@ != BZLMOD_GENERATED_EXTERNAL_CELL_KIND@,
{
    reveal_strlit("bundled");
    reveal_strlit("git");
    reveal_strlit("bzlmod");
    reveal_strlit("bzlmod_generated");
    assert(BZLMOD_EXTERNAL_CELL_KIND@ == "bzlmod"@);
    assert(BZLMOD_GENERATED_EXTERNAL_CELL_KIND@ == "bzlmod_generated"@);
    assert("bzlmod"@.len() == 6);
    assert("bundled"@.len() == 7);
    assert("git"@.len() == 3);
    assert("bzlmod_generated"@.len() == 16);
}

/// The origin that the configuration gives the cell of a module is the module's
/// own, and the JSON in its section is the module's, where the section was not
/// configured before and no two modules have the same cell.
pub proof fn law_module_reads_back(
    config: ConfigItems,
    aliases: Seq<BazelCompatCellAliasModel>,
    modules: Seq<BazelCompatExternalModuleModel>,
    toolchains: Seq<Text>,
    options: BazelCompatBazelrcOptionsModel,
    k: int,
    json: OriginJsonModel,
)
    requires
        config_in_order(config),
        0 <= k < modules.len(),
        forall|i: int, j: int|
            0 <= i < j < modules.len() ==> (#[trigger] modules[i]).cell() != (
            #[trigger] modules[j]).cell(),
        lookup(config, cell_section(modules[k].cell())) is None,
    ensures
        ({
            let written = with_compat_defaults(config, aliases, modules, toolchains, options);
            let cell = modules[k].cell();
            &&& cell_origin(cell, modules[k].kind(), written, json, listed_urls(written, cell))
                == module_cell_origin(modules[k], json, module_urls(modules[k]))
            &&& match modules[k] {
                BazelCompatExternalModuleModel::Registry(m) => json_texts(written, cell) == (
                    Some(m.patches_json),
                    m.overlays_json,
                    None::<Text>,
                ),
                BazelCompatExternalModuleModel::Generated(m) => json_texts(written, cell).2
                    == Some(m.generator_json),
            }
        }),
{
    let written = with_compat_defaults(config, aliases, modules, toolchains, options);
    let section = cell_section(modules[k].cell());
    assert forall|key: Text| #[trigger] config_value(written, section, key) == given(
        module_entries(modules[k]),
        key,
        0,
    ) by {
        law_module_section(config, aliases, modules, toolchains, options, k, key);
    }
    lemma_kinds_differ();
    match modules[k] {
        BazelCompatExternalModuleModel::Registry(m) => {
            lemma_registry_given(m);
            law_number_round_trip(m.patch_strip);
        },
        BazelCompatExternalModuleModel::Generated(m) => {
            lemma_generated_given(m);
        },
    }
}

} // verus!
