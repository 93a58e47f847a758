//! Why the startup defaults change nothing where they apply already.

use vstd::prelude::*;
use vstd::string::*;
use crate::compat::{
    Entry, cell_aliases_entries, cells_entries, compat_entries, config_in_order, configured_root,
    external_cells_entries, first_some, fixed_entries, law_entry_in_order, law_entry_lookup,
    module_cells, no_options, option_entries, root_path_name, section_or_empty, synthetic_value,
    with_compat_defaults, with_entries, with_entry,
};
// use crate::config::*;
use crate::ordered::{
    OrderedKey, lemma_text_lt_irreflexive, lemma_text_lt_total, lemma_text_lt_transitive, lookup,
    text_lt,
};
// use crate::resolved::*;
use crate::sections::{ConfigItems, SectionItems, config_value, section_sorted};
use crate::text::Text;

verus! {

/// The configuration with the startup defaults.
pub open spec fn with_startup_defaults(config: ConfigItems) -> ConfigItems {
    with_compat_defaults(config, seq![], seq![], seq![], no_options())
}

/// The name is that of a cell that the defaults bring.
pub open spec fn is_bundled(name: Option<Text>) -> bool {
    name == Some("prelude"@) || name == Some("bazel_tools"@)
}

/// The defaults leave the root cell known to the configuration that they make. Two
/// things stand in the way. An old alias `root` may name a bundled cell that is not
/// configured: with the defaults it becomes the root cell, which has no alias among
/// the new ones yet. And the root cell may stand among old cells only, in
/// `repositories` with no `cells` beside it: the defaults open the new section, which
/// hides it.
pub open spec fn root_settles(config: ConfigItems) -> bool {
    let alias = config_value(config, "cell_aliases"@, "root"@);
    let old_alias = config_value(config, "repository_aliases"@, "root"@);
    let root = configured_root(config);
    &&& !(alias is None && is_bundled(old_alias) && (root is None || root == Some("root"@))
        && lookup(section_or_empty(config, "cells"@), old_alias->0) is None)
    &&& lookup(config, "cells"@) is Some || root is None || is_bundled(alias) || (alias is None
        && is_bundled(root))
}

/// The startup defaults for a project with that root cell.
spec fn startup_entries(root: Option<Text>) -> Seq<Entry> {
    cells_entries(root, seq![]) + cell_aliases_entries(root, seq![]) + external_cells_entries(
        seq![],
    ) + fixed_entries(root)
}

proof fn lemma_startup_entries(root: Option<Text>)
    ensures
        compat_entries(root, seq![], seq![], seq![], no_options()) == startup_entries(root),
{
    assert(module_cells(seq![]) =~= seq![]);
    assert(option_entries(no_options()) =~= seq![]);
    assert(compat_entries(root, seq![], seq![], seq![], no_options()) =~= startup_entries(root));
}

spec fn all_defaults(entries: Seq<Entry>) -> bool {
    forall|i: int| 0 <= i < entries.len() ==> !(#[trigger] entries[i]).replaces
}

proof fn lemma_all_defaults(root: Option<Text>)
    ensures
        all_defaults(startup_entries(root)),
{
    let cells = cells_entries(root, seq![]);
    let aliases = cell_aliases_entries(root, seq![]);
    let external = external_cells_entries(seq![]);
    assert(all_defaults(cells));
    assert(all_defaults(aliases));
    assert(all_defaults(external));
    assert(all_defaults(fixed_entries(root)));
}

/// The configuration has a value for the entry.
spec fn has_value(config: ConfigItems, section: Text, key: Text) -> bool {
    lookup(section_or_empty(config, section), key) is Some
}

proof fn lemma_nothing_to_add(config: ConfigItems, entries: Seq<Entry>, i: int)
    requires
        0 <= i,
        all_defaults(entries),
        forall|j: int|
            0 <= j < entries.len() ==> has_value(
                config,
                (#[trigger] entries[j]).section,
                entries[j].key,
            ),
    ensures
        with_entries(config, entries, i) == config,
    decreases entries.len() - i,
{
    if i < entries.len() {
        assert(has_value(config, entries[i].section, entries[i].key));
        assert(with_entry(config, entries[i]) == config);
        lemma_nothing_to_add(config, entries, i + 1);
    }
}

/// What is read after defaults is what was there, or what one of them gives; and
/// each of them is there.
proof fn lemma_read(
    config: ConfigItems,
    entries: Seq<Entry>,
    i: int,
    section: Text,
    key: Text,
)
    requires
        0 <= i,
        config_in_order(config),
        all_defaults(entries),
    ensures
        ({
            let after = with_entries(config, entries, i);
            let found = lookup(section_or_empty(after, section), key);
            let before = lookup(section_or_empty(config, section), key);
            &&& config_in_order(after)
            &&& before is Some ==> found == before
            &&& before is None && found is Some ==> exists|j: int|
                i <= j < entries.len() && (#[trigger] entries[j]).section == section
                    && entries[j].key == key && found == Some(synthetic_value(entries[j].value))
            &&& (exists|j: int|
                i <= j < entries.len() && (#[trigger] entries[j]).section == section
                    && entries[j].key == key) ==> found is Some
        }),
    decreases entries.len() - i,
{
    if i < entries.len() {
        let e = entries[i];
        let next = with_entry(config, e);
        law_entry_in_order(config, e);
        law_entry_lookup(config, e, section, key);
        lemma_read(next, entries, i + 1, section, key);
        let found = lookup(section_or_empty(with_entries(config, entries, i), section), key);
        if e.section == section && e.key == key {
            assert(lookup(section_or_empty(next, section), key) is Some);
        }
        if (exists|j: int|
            i <= j < entries.len() && (#[trigger] entries[j]).section == section && entries[j].key
                == key) {
            let j = choose|j: int|
                i <= j < entries.len() && (#[trigger] entries[j]).section == section
                    && entries[j].key == key;
            if j > i {
                assert(entries[j].section == section);
            }
            assert(found is Some);
        }
    }
}

proof fn lemma_words()
    ensures
        "cells"@ != "cell_aliases"@,
        "cells"@ != "external_cells"@,
        "cells"@ != "buildfile"@,
        "cells"@ != "parser"@,
        "cells"@ != "bazel"@,
        "cells"@ != "buck2"@,
        "cell_aliases"@ != "external_cells"@,
        "cell_aliases"@ != "buildfile"@,
        "cell_aliases"@ != "parser"@,
        "cell_aliases"@ != "bazel"@,
        "cell_aliases"@ != "buck2"@,
        "repository_aliases"@ != "cells"@,
        "repository_aliases"@ != "cell_aliases"@,
        "repository_aliases"@ != "external_cells"@,
        "repository_aliases"@ != "buildfile"@,
        "repository_aliases"@ != "parser"@,
        "repository_aliases"@ != "bazel"@,
        "repository_aliases"@ != "buck2"@,
        "root"@ != "prelude"@,
        "root"@ != "bazel_tools"@,
        "root"@ != "config"@,
        "root"@ != "ovr_config"@,
        "root"@ != "fbcode"@,
        "root"@ != "fbcode_macros"@,
        "root"@ != "fbsource"@,
        "root"@ != "toolchains"@,
        "prelude"@ != "."@,
        "bazel_tools"@ != "."@,
{
    reveal_strlit("cells");
    reveal_strlit("cell_aliases");
    reveal_strlit("external_cells");
    reveal_strlit("repository_aliases");
    reveal_strlit("buildfile");
    reveal_strlit("parser");
    reveal_strlit("bazel");
    reveal_strlit("buck2");
    reveal_strlit("root");
    reveal_strlit("prelude");
    reveal_strlit("bazel_tools");
    reveal_strlit("config");
    reveal_strlit("ovr_config");
    reveal_strlit("fbcode");
    reveal_strlit("fbcode_macros");
    reveal_strlit("fbsource");
    reveal_strlit("toolchains");
    reveal_strlit(".");
    assert("cells"@[0] == 'c');
    assert("bazel"@[0] == 'b');
    assert("buck2"@[0] == 'b');
    assert("cells"@.len() == 5);
    assert("cell_aliases"@.len() == 12);
    assert("external_cells"@.len() == 14);
    assert("repository_aliases"@.len() == 18);
    assert("buildfile"@.len() == 9);
    assert("parser"@.len() == 6);
    assert("bazel"@.len() == 5);
    assert("buck2"@.len() == 5);
    assert("root"@.len() == 4);
    assert("prelude"@.len() == 7);
    assert("bazel_tools"@.len() == 11);
    assert("config"@.len() == 6);
    assert("ovr_config"@.len() == 10);
    assert("fbcode"@.len() == 6);
    assert("fbcode_macros"@.len() == 13);
    assert("fbsource"@.len() == 8);
    assert("toolchains"@.len() == 10);
    assert("."@.len() == 1);
}

/// What the defaults give the sections that the root cell is read from.
proof fn lemma_entry_kinds(root: Option<Text>, j: int)
    requires
        0 <= j < startup_entries(root).len(),
    ensures
        ({
            let e = startup_entries(root)[j];
            &&& e.section != "repository_aliases"@
            &&& e.section == "cells"@ ==> (e.key == "prelude"@ && e.value == "prelude"@) || (e.key
                == "bazel_tools"@ && e.value == "bazel_tools"@) || (root is None && e.key
                == "root"@ && e.value == "."@)
            &&& e.section == "cell_aliases"@ && e.key == "root"@ ==> root is Some && root->0
                != "root"@ && e.value == root->0
        }),
{
    lemma_words();
    let cells = cells_entries(root, seq![]);
    let aliases = cell_aliases_entries(root, seq![]);
    let external = external_cells_entries(seq![]);
    let a = cells.len() as int;
    let b = a + aliases.len();
    let c = b + external.len();
    let e = startup_entries(root)[j];
    if j < a {
        assert(e == cells[j]);
    } else if j < b {
        assert(e == aliases[j - a]);
    } else if j < c {
        assert(e == external[j - b]);
    } else {
        assert(e == fixed_entries(root)[j - c]);
    }
}

/// Where the entries stand that the root cell decides on.
proof fn lemma_entry_places(root: Option<Text>)
    ensures
        ({
            let entries = startup_entries(root);
            &&& exists|j: int|
                0 <= j < entries.len() && (#[trigger] entries[j]).section == "cells"@
                    && entries[j].key == "prelude"@
            &&& exists|j: int|
                0 <= j < entries.len() && (#[trigger] entries[j]).section == "cells"@
                    && entries[j].key == "bazel_tools"@
            &&& root is None ==> exists|j: int|
                0 <= j < entries.len() && (#[trigger] entries[j]).section == "cells"@
                    && entries[j].key == "root"@
            &&& root is Some && root->0 != "root"@ ==> exists|j: int|
                0 <= j < entries.len() && (#[trigger] entries[j]).section == "cell_aliases"@
                    && entries[j].key == "root"@
        }),
{
    let entries = startup_entries(root);
    let cells = cells_entries(root, seq![]);
    let aliases = cell_aliases_entries(root, seq![]);
    let k: int = if root is Some {
        0
    } else {
        1
    };
    assert(entries[k] == cells[k]);
    assert(entries[k].section == "cells"@ && entries[k].key == "prelude"@);
    assert(entries[k + 1] == cells[k + 1]);
    assert(entries[k + 1].section == "cells"@ && entries[k + 1].key == "bazel_tools"@);
    if root is None {
        assert(entries[0] == cells[0]);
        assert(entries[0].section == "cells"@ && entries[0].key == "root"@);
    } else if root->0 != "root"@ {
        assert(entries[cells.len() as int + 6] == aliases[6]);
        assert(entries[cells.len() as int + 6].section == "cell_aliases"@);
    }
}

/// An entry for one root cell is one for another, but for those of the root cell
/// itself.
proof fn lemma_other_root(root: Option<Text>, other: Option<Text>, j: int)
    requires
        0 <= j < startup_entries(root).len(),
    ensures
        ({
            let e = startup_entries(root)[j];
            let entries = startup_entries(other);
            ||| exists|k: int|
                0 <= k < entries.len() && (#[trigger] entries[k]).section == e.section
                    && entries[k].key == e.key
            ||| root is None && e.section == "cells"@ && e.key == "root"@
            ||| root is Some && root->0 != "root"@ && e.section == "cell_aliases"@ && e.key
                == "root"@
        }),
{
    let cells = cells_entries(root, seq![]);
    let aliases = cell_aliases_entries(root, seq![]);
    let external = external_cells_entries(seq![]);
    let a = cells.len() as int;
    let b = a + aliases.len();
    let c = b + external.len();
    let entries = startup_entries(other);
    let cells2 = cells_entries(other, seq![]);
    let aliases2 = cell_aliases_entries(other, seq![]);
    let a2 = cells2.len() as int;
    let b2 = a2 + aliases2.len();
    let c2 = b2 + external.len();
    let e = startup_entries(root)[j];
    if j < a {
        assert(e == cells[j]);
        lemma_entry_places(other);
    } else if j < b {
        assert(e == aliases[j - a]);
        if j - a < 6 {
            assert(entries[a2 + (j - a)] == aliases2[j - a]);
        }
    } else if j < c {
        assert(e == external[j - b]);
        assert(entries[b2 + (j - b)] == external[j - b]);
    } else {
        assert(e == fixed_entries(root)[j - c]);
        assert(entries[c2 + (j - c)] == fixed_entries(other)[j - c]);
    }
}

/// The name found is that of a cell at the project root, and no smaller one is.
proof fn lemma_root_path_name(cells: SectionItems, i: int)
    requires
        0 <= i,
        section_sorted(cells),
    ensures
        match root_path_name(cells, i) {
            Some(name) => exists|j: int|
                i <= j < cells.len() && (#[trigger] cells[j]).0 == name && cells[j].1.text()
                    == "."@ && forall|k: int|
                    i <= k < j ==> (#[trigger] cells[k]).1.text() != "."@,
            None => forall|k: int| i <= k < cells.len() ==> (#[trigger] cells[k]).1.text() != "."@,
        },
    decreases cells.len() - i,
{
    if i < cells.len() {
        if cells[i].1.text() != "."@ {
            lemma_root_path_name(cells, i + 1);
            if let Some(name) = root_path_name(cells, i + 1) {
                let j = choose|j: int|
                    i + 1 <= j < cells.len() && (#[trigger] cells[j]).0 == name
                        && cells[j].1.text() == "."@ && forall|k: int|
                        i + 1 <= k < j ==> (#[trigger] cells[k]).1.text() != "."@;
                assert(cells[j].0 == name);
            }
        } else {
            assert(cells[i].0 == root_path_name(cells, i)->0);
        }
    }
}

/// In sorted entries an entry is what its key is looked up as.
proof fn lemma_lookup_at(cells: SectionItems, j: int)
    requires
        section_sorted(cells),
        0 <= j < cells.len(),
    ensures
        lookup(cells, cells[j].0) == Some(cells[j].1),
    decreases cells.len(),
{
    if j > 0 {
        lemma_text_lt_irreflexive(cells[j].0);
        assert(String::key_lt(cells[0].0, cells[j].0));
        assert(cells[0].0 != cells[j].0);
        let rest = cells.skip(1);
        assert(rest[j - 1] == cells[j]);
        assert(section_sorted(rest)) by {
            assert forall|x: int, y: int|
                #![trigger rest[x], rest[y]]
                0 <= x < y < rest.len() implies String::key_lt(rest[x].0, rest[y].0) by {
                assert(rest[x] == cells[x + 1] && rest[y] == cells[y + 1]);
            }
        }
        lemma_lookup_at(rest, j - 1);
    }
}

proof fn lemma_lookup_place(cells: SectionItems, name: Text)
    ensures
        lookup(cells, name) matches Some(value) ==> exists|j: int|
            0 <= j < cells.len() && #[trigger] cells[j] == (name, value),
    decreases cells.len(),
{
    if cells.len() > 0 {
        if cells[0].0 == name {
            assert(cells[0] == (name, cells[0].1));
        } else {
            let rest = cells.skip(1);
            lemma_lookup_place(rest, name);
            if let Some(value) = lookup(rest, name) {
                let j = choose|j: int| 0 <= j < rest.len() && #[trigger] rest[j] == (name, value);
                assert(cells[j + 1] == (name, value));
            }
        }
    }
}

/// A cell at the project root.
spec fn at_root(cells: SectionItems, name: Text) -> bool {
    lookup(cells, name) matches Some(value) && value.text() == "."@
}

/// The name that is found at the project root is the smallest of those there.
proof fn lemma_smallest_at_root(cells: SectionItems)
    requires
        section_sorted(cells),
    ensures
        match root_path_name(cells, 0) {
            Some(name) => at_root(cells, name) && forall|other: Text| #[trigger]
                at_root(cells, other) ==> !text_lt(other, name),
            None => forall|other: Text| !#[trigger] at_root(cells, other),
        },
{
    lemma_root_path_name(cells, 0);
    match root_path_name(cells, 0) {
        Some(name) => {
            let j = choose|j: int|
                0 <= j < cells.len() && (#[trigger] cells[j]).0 == name && cells[j].1.text()
                    == "."@ && forall|k: int|
                    0 <= k < j ==> (#[trigger] cells[k]).1.text() != "."@;
            lemma_lookup_at(cells, j);
            assert forall|other: Text| #[trigger] at_root(cells, other) implies !text_lt(
                other,
                name,
            ) by {
                lemma_lookup_place(cells, other);
                let value = lookup(cells, other)->0;
                let k = choose|k: int|
                    0 <= k < cells.len() && #[trigger] cells[k] == (other, value);
                assert(k >= j);
                lemma_text_lt_irreflexive(name);
                if k > j {
                    assert(String::key_lt(cells[j].0, cells[k].0));
                    if text_lt(other, name) {
                        lemma_text_lt_transitive(other, name, other);
                        lemma_text_lt_irreflexive(other);
                    }
                }
            }
        },
        None => {
            assert forall|other: Text| !#[trigger] at_root(cells, other) by {
                lemma_lookup_place(cells, other);
                if let Some(value) = lookup(cells, other) {
                    let k = choose|k: int|
                        0 <= k < cells.len() && #[trigger] cells[k] == (other, value);
                    assert(cells[k].1.text() != "."@);
                }
            }
        },
    }
}

/// What the defaults make of the parts of a configuration that the root cell is read
/// from.
proof fn lemma_root_parts(config: ConfigItems)
    requires
        config_in_order(config),
    ensures
        ({
            let after = with_startup_defaults(config);
            let root = configured_root(config);
            let cells = section_or_empty(config, "cells"@);
            let cells_after = section_or_empty(after, "cells"@);
            &&& config_in_order(after)
            &&& lookup(after, "cells"@) == Some(cells_after)
            &&& forall|name: Text|
                (#[trigger] lookup(cells, name)) is Some ==> lookup(cells_after, name) == lookup(
                    cells,
                    name,
                )
            &&& forall|name: Text|
                lookup(cells, name) is None && (#[trigger] lookup(cells_after, name)) is Some ==> (
                is_bundled(Some(name)) && !at_root(cells_after, name)) || (root is None && name
                    == "root"@)
            &&& lookup(cells_after, "prelude"@) is Some
            &&& lookup(cells_after, "bazel_tools"@) is Some
            &&& root is None ==> lookup(cells_after, "root"@) is Some
            &&& config_value(after, "repository_aliases"@, "root"@) == config_value(
                config,
                "repository_aliases"@,
                "root"@,
            )
            &&& config_value(after, "cell_aliases"@, "root"@) == first_some(
                config_value(config, "cell_aliases"@, "root"@),
                if root is Some && root->0 != "root"@ {
                    root
                } else {
                    None
                },
            )
        }),
{
    lemma_words();
    let root = configured_root(config);
    let entries = startup_entries(root);
    let after = with_startup_defaults(config);
    let cells = section_or_empty(config, "cells"@);
    let cells_after = section_or_empty(after, "cells"@);
    lemma_startup_entries(root);
    lemma_all_defaults(root);
    lemma_entry_places(root);
    lemma_read(config, entries, 0, "cells"@, "prelude"@);
    lemma_read(config, entries, 0, "cells"@, "bazel_tools"@);
    lemma_read(config, entries, 0, "cells"@, "root"@);
    lemma_read(config, entries, 0, "cell_aliases"@, "root"@);
    lemma_read(config, entries, 0, "repository_aliases"@, "root"@);
    assert forall|name: Text| (#[trigger] lookup(cells, name)) is Some implies lookup(
        cells_after,
        name,
    ) == lookup(cells, name) by {
        lemma_read(config, entries, 0, "cells"@, name);
    }
    assert forall|name: Text|
        lookup(cells, name) is None && (#[trigger] lookup(cells_after, name)) is Some implies (
    is_bundled(Some(name)) && !at_root(cells_after, name)) || (root is None && name
        == "root"@) by {
        lemma_read(config, entries, 0, "cells"@, name);
        let j = choose|j: int|
            0 <= j < entries.len() && (#[trigger] entries[j]).section == "cells"@
                && entries[j].key == name && lookup(cells_after, name) == Some(
                synthetic_value(entries[j].value),
            );
        lemma_entry_kinds(root, j);
    }
    let old_alias = lookup(section_or_empty(after, "repository_aliases"@), "root"@);
    if lookup(section_or_empty(config, "repository_aliases"@), "root"@) is None && old_alias
        is Some {
        let j = choose|j: int|
            0 <= j < entries.len() && (#[trigger] entries[j]).section == "repository_aliases"@
                && entries[j].key == "root"@ && old_alias == Some(
                synthetic_value(entries[j].value),
            );
        lemma_entry_kinds(root, j);
    }
    let alias = lookup(section_or_empty(after, "cell_aliases"@), "root"@);
    if lookup(section_or_empty(config, "cell_aliases"@), "root"@) is None && alias is Some {
        let j = choose|j: int|
            0 <= j < entries.len() && (#[trigger] entries[j]).section == "cell_aliases"@
                && entries[j].key == "root"@ && alias == Some(synthetic_value(entries[j].value));
        lemma_entry_kinds(root, j);
    }
}

/// With the defaults, the entries of the root cell that they ask for are there.
proof fn lemma_root_known(config: ConfigItems)
    requires
        config_in_order(config),
        root_settles(config),
    ensures
        ({
            let after = with_startup_defaults(config);
            let root = configured_root(after);
            &&& root is None ==> has_value(after, "cells"@, "root"@)
            &&& root is Some && root->0 != "root"@ ==> has_value(
                after,
                "cell_aliases"@,
                "root"@,
            )
        }),
{
    lemma_words();
    lemma_root_parts(config);
    let after = with_startup_defaults(config);
    let root = configured_root(config);
    let root_after = configured_root(after);
    let cells = section_or_empty(config, "cells"@);
    let cells_after = section_or_empty(after, "cells"@);
    let alias = config_value(config, "cell_aliases"@, "root"@);
    let old_alias = config_value(config, "repository_aliases"@, "root"@);
    let alias_after = config_value(after, "cell_aliases"@, "root"@);
    lemma_in_order(config);
    lemma_in_order(after);
    lemma_smallest_at_root(cells);
    lemma_smallest_at_root(cells_after);
    if root is Some && lookup(config, "cells"@) is Some && first_some(alias, old_alias) != root {
        let name = root->0;
        assert(root == root_path_name(cells, 0));
        assert(at_root(cells, name));
        assert(lookup(cells_after, name) == lookup(cells, name));
        assert(at_root(cells_after, name));
    }
    if alias_after is None && root_after is Some && root_after->0 != "root"@ {
        let name = root_after->0;
        assert(alias is None);
        assert(root is None || root == Some("root"@));
        if old_alias is Some && lookup(cells_after, old_alias->0) is Some {
            assert(name == old_alias->0);
            if lookup(cells, name) is Some {
                assert(root == Some(name));
            }
            assert(false);
        } else {
            assert(root_after == root_path_name(cells_after, 0));
            assert(at_root(cells_after, name));
            if lookup(cells, name) is Some {
                assert(lookup(cells_after, name) == lookup(cells, name));
                assert(at_root(cells, name));
                assert(lookup(config, "cells"@) is Some);
                if old_alias is Some && lookup(cells, old_alias->0) is Some {
                    assert(lookup(cells_after, old_alias->0) is Some);
                }
                assert(root == root_path_name(cells, 0));
                assert(root == Some("root"@));
                assert(at_root(cells, "root"@));
                assert(lookup(cells_after, "root"@) == lookup(cells, "root"@));
                assert(at_root(cells_after, "root"@));
                lemma_text_lt_total(name, "root"@);
            }
            assert(false);
        }
    }
}

proof fn lemma_in_order(config: ConfigItems)
    requires
        config_in_order(config),
    ensures
        section_sorted(section_or_empty(config, "cells"@)),
    decreases config.len(),
{
    lemma_section_place(config, "cells"@);
}

proof fn lemma_section_place(config: ConfigItems, name: Text)
    ensures
        lookup(config, name) matches Some(section) ==> exists|j: int|
            0 <= j < config.len() && (#[trigger] config[j]).1 == section,
    decreases config.len(),
{
    if config.len() > 0 {
        if config[0].0 == name {
            assert(config[0].1 == lookup(config, name)->0);
        } else {
            let rest = config.skip(1);
            lemma_section_place(rest, name);
            if let Some(section) = lookup(rest, name) {
                let j = choose|j: int|
                    0 <= j < rest.len() && (#[trigger] rest[j]).1 == section;
                assert(config[j + 1].1 == section);
            }
        }
    }
}

/// A configuration that has the startup defaults is left as it is by them: the same
/// sections, keys and values, wherever the root cell stays known.
pub proof fn law_startup_defaults_again(config: ConfigItems)
    requires
        config_in_order(config),
        root_settles(config),
    ensures
        with_startup_defaults(with_startup_defaults(config)) == with_startup_defaults(config),
{
    let after = with_startup_defaults(config);
    let root = configured_root(config);
    let root_after = configured_root(after);
    let first = startup_entries(root);
    let second = startup_entries(root_after);
    lemma_startup_entries(root);
    lemma_startup_entries(root_after);
    lemma_all_defaults(root);
    lemma_all_defaults(root_after);
    lemma_root_known(config);
    assert forall|j: int| 0 <= j < second.len() implies has_value(
        after,
        (#[trigger] second[j]).section,
        second[j].key,
    ) by {
        let e = second[j];
        lemma_other_root(root_after, root, j);
        lemma_read(config, first, 0, e.section, e.key);
    }
    lemma_nothing_to_add(after, second, 0);
}

} // verus!
