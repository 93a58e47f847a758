//! What holds of every selection of modules.

use vstd::prelude::*;
use vstd::string::*;
use crate::dependency_first::dependencies;
use crate::graph::law_selection_all_named;
use crate::module::{BazelDepModel, DiscoveredBcrModuleModel};
use crate::ordered::{
    law_lookup_after_put, law_put_sorted, law_set_put_contains, lemma_push_contains, lookup,
    set_put, sorted_items,
};
use crate::select::{
    best_versions, breadth_first, canonical_name, canonical_names, covers_version, dep_keys,
    has_other_version, law_best_versions, lemma_discovered_key, lemma_unseen_decreases, map_keys,
    selection, start_keys, unseen, with_builtin,
};
use crate::selection::{Discovered, ModuleKey};
use crate::text::Text;

verus! {

/// The modules are those that a traversal from some starts reaches by itself:
/// the starts, and with each module its dependencies.
pub open spec fn closed_under_dependencies(
    modules: Set<ModuleKey>,
    starts: Seq<ModuleKey>,
    discovered: Discovered,
    versions: Seq<(Text, Text)>,
) -> bool {
    &&& forall|k: ModuleKey| #[trigger] starts.contains(k) ==> modules.contains(k)
    &&& forall|k: ModuleKey, dep: ModuleKey|
        modules.contains(k) && #[trigger] dependencies(discovered, versions, k).contains(dep)
            ==> modules.contains(dep)
}

/// Each key has the selected version of its module.
pub open spec fn at_selected_versions(keys: Seq<ModuleKey>, versions: Seq<(Text, Text)>) -> bool {
    forall|k: ModuleKey| #[trigger] keys.contains(k) ==> lookup(versions, k.0) == Some(k.1)
}

/// What is seen has its dependencies among what is seen or queued.
spec fn closed_with_queue(
    queue: Seq<ModuleKey>,
    seen: Seq<ModuleKey>,
    discovered: Discovered,
    versions: Seq<(Text, Text)>,
) -> bool {
    forall|k: ModuleKey, dep: ModuleKey|
        seen.contains(k) && #[trigger] dependencies(discovered, versions, k).contains(dep)
            ==> seen.contains(dep) || queue.contains(dep)
}

proof fn lemma_dep_keys_at(deps: Seq<BazelDepModel>, versions: Seq<(Text, Text)>)
    ensures
        at_selected_versions(dep_keys(deps, versions), versions),
    decreases deps.len(),
{
    if deps.len() > 0 {
        lemma_dep_keys_at(deps.drop_last(), versions);
        let before = dep_keys(deps.drop_last(), versions);
        let all = dep_keys(deps, versions);
        assert forall|k: ModuleKey| #[trigger] all.contains(k) implies lookup(versions, k.0)
            == Some(k.1) by {
            let i = choose|i: int| 0 <= i < all.len() && all[i] == k;
            if i < before.len() {
                assert(before.contains(before[i]));
            }
        }
    }
}

proof fn lemma_breadth_first(
    queue: Seq<ModuleKey>,
    seen: Seq<ModuleKey>,
    order: Seq<ModuleKey>,
    discovered: Discovered,
    versions: Seq<(Text, Text)>,
    starts: Seq<ModuleKey>,
    modules: Set<ModuleKey>,
)
    requires
        at_selected_versions(queue, versions),
        at_selected_versions(seen, versions),
        closed_with_queue(queue, seen, discovered, versions),
        forall|k: ModuleKey| #[trigger]
            starts.contains(k) ==> seen.contains(k) || queue.contains(k),
        forall|k: ModuleKey| #[trigger] seen.contains(k) <==> order.contains(k),
        forall|k: ModuleKey| #[trigger] seen.contains(k) ==> lookup(discovered, k) is Some,
        order.no_duplicates(),
        closed_under_dependencies(modules, starts, discovered, versions) ==> (forall|k: ModuleKey|
            #[trigger] queue.contains(k) ==> modules.contains(k)) && (forall|k: ModuleKey|
            #[trigger] seen.contains(k) ==> modules.contains(k)),
    ensures
        breadth_first(queue, seen, order, discovered, versions) matches Ok((all, found)) ==> {
            &&& at_selected_versions(all, versions)
            &&& closed_under_dependencies(all.to_set(), starts, discovered, versions)
            &&& forall|k: ModuleKey| #[trigger] all.contains(k) <==> found.contains(k)
            &&& forall|k: ModuleKey| #[trigger]
                all.contains(k) ==> lookup(discovered, k) is Some
            &&& found.no_duplicates()
            &&& closed_under_dependencies(modules, starts, discovered, versions) ==> (forall|
                k: ModuleKey,
            | #[trigger]
                all.contains(k) ==> modules.contains(k))
        },
    decreases unseen(map_keys(discovered), seen), queue.len(),
{
    if queue.len() == 0 {
        assert forall|k: ModuleKey| #[trigger] starts.contains(k) implies seen.to_set().contains(
            k,
        ) by {
            assert(seen.contains(k) || queue.contains(k));
        }
        assert forall|k: ModuleKey, dep: ModuleKey|
            seen.to_set().contains(k) && #[trigger] dependencies(
                discovered,
                versions,
                k,
            ).contains(dep) implies seen.to_set().contains(dep) by {
            assert(seen.contains(k));
            assert(seen.contains(dep) || queue.contains(dep));
        }
    } else {
        let key = queue[0];
        let rest = queue.skip(1);
        assert(queue.contains(key));
        assert forall|k: ModuleKey| #[trigger] queue.contains(k) implies k == key || rest.contains(
            k,
        ) by {
            let i = choose|i: int| 0 <= i < queue.len() && queue[i] == k;
            if i > 0 {
                assert(rest[i - 1] == k);
            }
        }
        assert forall|k: ModuleKey| #[trigger] rest.contains(k) implies queue.contains(k) by {
            let i = choose|i: int| 0 <= i < rest.len() && rest[i] == k;
            assert(queue[i + 1] == k);
        }
        if seen.contains(key) {
            lemma_breadth_first(rest, seen, order, discovered, versions, starts, modules);
        } else if let Some(module) = lookup(discovered, key) {
            let deps = dep_keys(module.deps, versions);
            let next = rest + deps;
            let entered = set_put::<(String, String)>(seen, key);
            let pushed = order.push(key);
            assert(deps == dependencies(discovered, versions, key));
            lemma_discovered_key(discovered, key);
            lemma_unseen_decreases(map_keys(discovered), seen, key);
            lemma_dep_keys_at(module.deps, versions);
            assert forall|k: ModuleKey| #[trigger] entered.contains(k) == (seen.contains(k) || k
                == key) by {
                law_set_put_contains::<(String, String)>(seen, key, k);
            }
            assert forall|k: ModuleKey| #[trigger] pushed.contains(k) == (order.contains(k) || k
                == key) by {
                lemma_push_contains(order, key, k);
            }
            assert forall|k: ModuleKey| #[trigger] next.contains(k) == (rest.contains(k)
                || deps.contains(k)) by {
                if rest.contains(k) {
                    let i = choose|i: int| 0 <= i < rest.len() && rest[i] == k;
                    assert(next[i] == k);
                }
                if deps.contains(k) {
                    let i = choose|i: int| 0 <= i < deps.len() && deps[i] == k;
                    assert(next[rest.len() + i] == k);
                }
            }
            assert(pushed.no_duplicates()) by {
                assert forall|i: int, j: int|
                    0 <= i < pushed.len() && 0 <= j < pushed.len() && i != j implies pushed[i]
                    != pushed[j] by {
                    if i < order.len() {
                        assert(order.contains(order[i]));
                    }
                    if j < order.len() {
                        assert(order.contains(order[j]));
                    }
                }
            }
            assert forall|k: ModuleKey, dep: ModuleKey|
                entered.contains(k) && #[trigger] dependencies(
                    discovered,
                    versions,
                    k,
                ).contains(dep) implies entered.contains(dep) || next.contains(dep) by {
                if k != key {
                    assert(seen.contains(dep) || queue.contains(dep));
                }
            }
            assert forall|k: ModuleKey| #[trigger] starts.contains(k) implies entered.contains(k)
                || next.contains(k) by {
                assert(seen.contains(k) || queue.contains(k));
            }
            lemma_breadth_first(next, entered, pushed, discovered, versions, starts, modules);
        }
    }
}

/// The version that a selection has of each module, where it comes to one.
pub open spec fn chosen_versions(all: Discovered) -> Seq<(Text, Text)> {
    best_versions(map_keys(all), 0, seq![])->Ok_0
}

proof fn lemma_start_keys(root_deps: Seq<BazelDepModel>, versions: Seq<(Text, Text)>)
    ensures
        at_selected_versions(start_keys(root_deps, versions), versions),
{
    lemma_dep_keys_at(root_deps, versions);
    let roots = dep_keys(root_deps, versions);
    let all = start_keys(root_deps, versions);
    assert forall|k: ModuleKey| #[trigger] all.contains(k) implies lookup(versions, k.0) == Some(
        k.1,
    ) by {
        let i = choose|i: int| 0 <= i < all.len() && all[i] == k;
        if i < roots.len() {
            assert(roots.contains(roots[i]));
        }
    }
}

/// The modules selected are the fewest that hold the root's dependencies, the
/// built-in tools and the dependencies of each of them, all in the versions
/// chosen. Each was discovered. The order of the traversal lists each once.
pub proof fn law_selection_reached(
    root_deps: Seq<BazelDepModel>,
    builtin: DiscoveredBcrModuleModel,
    discovered: Discovered,
    modules: Set<ModuleKey>,
)
    ensures
        selection(root_deps, builtin, discovered) matches Ok(s) ==> {
            let versions = chosen_versions(s.discovered);
            let starts = start_keys(root_deps, versions);
            &&& closed_under_dependencies(
                s.selected_keys.to_set(),
                starts,
                s.discovered,
                versions,
            )
            &&& closed_under_dependencies(modules, starts, s.discovered, versions) ==> (forall|
                k: ModuleKey,
            | #[trigger]
                s.selected_keys.contains(k) ==> modules.contains(k))
            &&& forall|k: ModuleKey| #[trigger]
                s.selected_keys.contains(k) ==> lookup(s.discovered, k) is Some
            &&& s.selected_keys_in_bfs_order.no_duplicates()
            &&& forall|k: ModuleKey| #[trigger]
                s.selected_keys.contains(k) <==> s.selected_keys_in_bfs_order.contains(k)
        },
{
    let all = with_builtin(discovered, builtin);
    let versions = chosen_versions(all);
    let starts = start_keys(root_deps, versions);
    let none: Seq<ModuleKey> = seq![];
    lemma_start_keys(root_deps, versions);
    lemma_breadth_first(starts, none, none, all, versions, starts, modules);
}

/// One version of a module is selected, and it is the highest that was
/// discovered.
pub proof fn law_selection_highest(
    root_deps: Seq<BazelDepModel>,
    builtin: DiscoveredBcrModuleModel,
    discovered: Discovered,
)
    ensures
        selection(root_deps, builtin, discovered) matches Ok(s) ==> {
            &&& forall|a: ModuleKey, b: ModuleKey|
                #![trigger s.selected_keys.contains(a), s.selected_keys.contains(b)]
                s.selected_keys.contains(a) && s.selected_keys.contains(b) && a.0 == b.0 ==> a == b
            &&& forall|k: ModuleKey, i: int|
                #![trigger s.selected_keys.contains(k), s.discovered[i]]
                s.selected_keys.contains(k) && 0 <= i < s.discovered.len() && s.discovered[i].0.0
                    == k.0 ==> covers_version(k.1, s.discovered[i].0.1)
        },
{
    let all = with_builtin(discovered, builtin);
    let versions = chosen_versions(all);
    let starts = start_keys(root_deps, versions);
    let none: Seq<ModuleKey> = seq![];
    lemma_start_keys(root_deps, versions);
    lemma_breadth_first(starts, none, none, all, versions, starts, Set::empty());
    law_best_versions(map_keys(all), 0, seq![]);
    if let Ok(s) = selection(root_deps, builtin, discovered) {
        assert(at_selected_versions(s.selected_keys, versions));
        assert forall|k: ModuleKey, i: int|
            #![trigger s.selected_keys.contains(k), s.discovered[i]]
            s.selected_keys.contains(k) && 0 <= i < s.discovered.len() && s.discovered[i].0.0
                == k.0 implies covers_version(k.1, s.discovered[i].0.1) by {
            assert(map_keys(all)[i] == all[i].0);
        }
    }
}

proof fn lemma_names_of(keys: Seq<ModuleKey>, i: int, key: ModuleKey)
    requires
        0 <= i <= keys.len(),
    ensures
        sorted_items::<(String, String), Text>(canonical_names(keys, i)),
        lookup(canonical_names(keys, i), key) matches Some(name) ==> name == canonical_name(
            key.0,
            key.1,
            has_other_version(keys, key),
        ),
    decreases i,
{
    if i > 0 {
        lemma_names_of(keys, i - 1, key);
        let before = canonical_names(keys, i - 1);
        let last = keys[i - 1];
        let name = canonical_name(last.0, last.1, has_other_version(keys, last));
        law_put_sorted::<(String, String), Text>(before, last, name);
        law_lookup_after_put::<(String, String), Text>(before, last, name, key);
    }
}

proof fn lemma_single_names(a: Text, b: Text, version: Text, other: Text)
    requires
        canonical_name(a, version, false) == canonical_name(b, other, false),
    ensures
        a == b,
{
    reveal_strlit("bazel_tools");
    reveal_strlit("platforms");
    reveal_strlit("+");
    let x = canonical_name(a, version, false);
    let plain_a = a == "bazel_tools"@ || a == "platforms"@;
    let plain_b = b == "bazel_tools"@ || b == "platforms"@;
    assert("bazel_tools"@.last() == 's');
    assert("platforms"@.last() == 's');
    if !plain_a {
        assert(x.last() == '+');
        assert(x.drop_last() =~= a);
    }
    if !plain_b {
        assert(x.last() == '+');
        assert(x.drop_last() =~= b);
    }
}

/// No two of the modules selected have the same repository name.
pub proof fn law_selection_names_differ(
    root_deps: Seq<BazelDepModel>,
    builtin: DiscoveredBcrModuleModel,
    discovered: Discovered,
    a: ModuleKey,
    b: ModuleKey,
)
    ensures
        selection(root_deps, builtin, discovered) matches Ok(s) ==> s.selected_keys.contains(a)
            && s.selected_keys.contains(b) && lookup(s.canonical_repo_names_by_key, a) == lookup(
            s.canonical_repo_names_by_key,
            b,
        ) ==> a == b,
{
    law_selection_highest(root_deps, builtin, discovered);
    law_selection_all_named(root_deps, builtin, discovered);
    if let Ok(s) = selection(root_deps, builtin, discovered) {
        let keys = s.selected_keys;
        if keys.contains(a) && keys.contains(b) && lookup(s.canonical_repo_names_by_key, a)
            == lookup(s.canonical_repo_names_by_key, b) {
            lemma_names_of(keys, keys.len() as int, a);
            lemma_names_of(keys, keys.len() as int, b);
            assert(!has_other_version(keys, a)) by {
                assert(forall|j: int| 0 <= j < keys.len() ==> keys.contains(#[trigger] keys[j]));
            }
            assert(!has_other_version(keys, b)) by {
                assert(forall|j: int| 0 <= j < keys.len() ==> keys.contains(#[trigger] keys[j]));
            }
            let i = choose|i: int| 0 <= i < keys.len() && keys[i] == a;
            assert(lookup(s.canonical_repo_names_by_key, keys[i]) is Some);
            lemma_single_names(a.0, b.0, a.1, b.1);
        }
    }
}

} // verus!
