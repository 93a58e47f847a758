//! Why the order of the selected modules has dependencies before dependents.

use vstd::prelude::*;
use crate::module::BazelDepModel;
use crate::ordered::{law_set_put_contains, lookup, set_put};
use crate::select::{
    dep_keys, dependency_order, lemma_unseen_decreases, lemma_visit, lemma_visit_all,
    order_invariant, unseen, visit, visit_all,
};
use crate::selection::{Discovered, ModuleKey};
use crate::text::Text;

verus! {

/// The modules that a module depends on, in the selected versions.
pub open spec fn dependencies(
    discovered: Discovered,
    versions: Seq<(Text, Text)>,
    key: ModuleKey,
) -> Seq<ModuleKey> {
    match lookup(discovered, key) {
        Some(module) => dep_keys(module.deps, versions),
        None => seq![],
    }
}

/// Every selected module ranks above the selected modules that it depends on.
pub open spec fn ranks(
    rank: spec_fn(ModuleKey) -> nat,
    discovered: Discovered,
    versions: Seq<(Text, Text)>,
    selected: Seq<ModuleKey>,
) -> bool {
    forall|key: ModuleKey, dep: ModuleKey|
        #![trigger dependencies(discovered, versions, key), selected.contains(dep)]
        selected.contains(key) && selected.contains(dep) && dependencies(
            discovered,
            versions,
            key,
        ).contains(dep) ==> rank(dep) < rank(key)
}

/// No selected module depends on itself, however far down.
pub open spec fn acyclic(
    discovered: Discovered,
    versions: Seq<(Text, Text)>,
    selected: Seq<ModuleKey>,
) -> bool {
    exists|rank: spec_fn(ModuleKey) -> nat| #[trigger] ranks(rank, discovered, versions, selected)
}

/// Each selected dependency of a module in the list stands before it.
pub open spec fn dependencies_first(
    discovered: Discovered,
    versions: Seq<(Text, Text)>,
    selected: Seq<ModuleKey>,
    ordered: Seq<ModuleKey>,
) -> bool {
    forall|i: int, dep: ModuleKey|
        #![trigger ordered[i], selected.contains(dep)]
        0 <= i < ordered.len() && selected.contains(dep) && dependencies(
            discovered,
            versions,
            ordered[i],
        ).contains(dep) ==> ordered.take(i).contains(dep)
}

/// What is seen and not ordered yet ranks above a module.
spec fn open_above(
    rank: spec_fn(ModuleKey) -> nat,
    seen: Seq<ModuleKey>,
    ordered: Seq<ModuleKey>,
    key: ModuleKey,
) -> bool {
    forall|k: ModuleKey| #[trigger]
        seen.contains(k) && !ordered.contains(k) ==> rank(key) < rank(k)
}

proof fn lemma_unseen_grows(keys: Seq<ModuleKey>, seen: Seq<ModuleKey>, more: Seq<ModuleKey>)
    requires
        forall|k: ModuleKey| #[trigger] seen.contains(k) ==> more.contains(k),
    ensures
        unseen(keys, more) <= unseen(keys, seen),
    decreases keys.len(),
{
    if keys.len() > 0 {
        lemma_unseen_grows(keys.drop_last(), seen, more);
    }
}

proof fn lemma_unseen_bound(keys: Seq<ModuleKey>, seen: Seq<ModuleKey>)
    ensures
        unseen(keys, seen) <= keys.len(),
    decreases keys.len(),
{
    if keys.len() > 0 {
        lemma_unseen_bound(keys.drop_last(), seen);
    }
}

proof fn lemma_visit_first(
    rank: spec_fn(ModuleKey) -> nat,
    key: ModuleKey,
    discovered: Discovered,
    versions: Seq<(Text, Text)>,
    selected: Seq<ModuleKey>,
    seen: Seq<ModuleKey>,
    ordered: Seq<ModuleKey>,
    n: nat,
)
    requires
        order_invariant(selected, seen, ordered),
        ranks(rank, discovered, versions, selected),
        dependencies_first(discovered, versions, selected, ordered),
        open_above(rank, seen, ordered, key),
        unseen(selected, seen) < n,
    ensures
        dependencies_first(
            discovered,
            versions,
            selected,
            visit(key, discovered, versions, selected, seen, ordered, n).1,
        ),
    decreases n, 0nat,
{
    if selected.contains(key) && !seen.contains(key) {
        let entered = set_put::<(String, String)>(seen, key);
        let deps = dependencies(discovered, versions, key);
        lemma_unseen_decreases(selected, seen, key);
        assert forall|k: ModuleKey| #[trigger] entered.contains(k) == (seen.contains(k) || k
            == key) by {
            law_set_put_contains::<(String, String)>(seen, key, k);
        }
        assert(order_invariant(selected, entered, ordered));
        assert forall|j: int| 0 <= j < deps.len() && selected.contains(#[trigger] deps[j]) implies
            open_above(rank, entered, ordered, deps[j]) by {
            assert(deps.contains(deps[j]));
            assert(rank(deps[j]) < rank(key));
        }
        lemma_visit_all(deps, 0, discovered, versions, selected, entered, ordered, (n - 1) as nat);
        lemma_visit_all_first(
            rank,
            deps,
            0,
            discovered,
            versions,
            selected,
            entered,
            ordered,
            (n - 1) as nat,
        );
        let middle = visit_all(
            deps,
            0,
            discovered,
            versions,
            selected,
            entered,
            ordered,
            (n - 1) as nat,
        );
        let after = visit(key, discovered, versions, selected, seen, ordered, n);
        assert(after.1 == middle.1.push(key));
        assert forall|i: int, dep: ModuleKey|
            #![trigger after.1[i], selected.contains(dep)]
            0 <= i < after.1.len() && selected.contains(dep) && dependencies(
                discovered,
                versions,
                after.1[i],
            ).contains(dep) implies after.1.take(i).contains(dep) by {
            if i < middle.1.len() {
                assert(after.1[i] == middle.1[i]);
                assert(after.1.take(i) =~= middle.1.take(i));
            } else {
                assert(after.1.take(i) =~= middle.1);
                let j = choose|j: int| 0 <= j < deps.len() && deps[j] == dep;
                assert(selected.contains(deps[j]));
                assert(middle.0.contains(dep));
                assert(rank(dep) < rank(key));
                assert(entered.contains(dep) || middle.1.contains(dep));
                if entered.contains(dep) {
                    assert(seen.contains(dep));
                    assert(ordered.contains(dep));
                    assert(middle.1.contains(dep));
                }
            }
        }
    }
}

proof fn lemma_visit_all_first(
    rank: spec_fn(ModuleKey) -> nat,
    keys: Seq<ModuleKey>,
    i: int,
    discovered: Discovered,
    versions: Seq<(Text, Text)>,
    selected: Seq<ModuleKey>,
    seen: Seq<ModuleKey>,
    ordered: Seq<ModuleKey>,
    n: nat,
)
    requires
        0 <= i,
        order_invariant(selected, seen, ordered),
        ranks(rank, discovered, versions, selected),
        dependencies_first(discovered, versions, selected, ordered),
        forall|j: int|
            i <= j < keys.len() && selected.contains(#[trigger] keys[j]) ==> open_above(
                rank,
                seen,
                ordered,
                keys[j],
            ),
        unseen(selected, seen) < n,
    ensures
        dependencies_first(
            discovered,
            versions,
            selected,
            visit_all(keys, i, discovered, versions, selected, seen, ordered, n).1,
        ),
    decreases n, 1nat, keys.len() - i,
{
    if i < keys.len() {
        let after = visit(keys[i], discovered, versions, selected, seen, ordered, n);
        if selected.contains(keys[i]) {
            lemma_visit_first(
                rank,
                keys[i],
                discovered,
                versions,
                selected,
                seen,
                ordered,
                n,
            );
        }
        lemma_visit(keys[i], discovered, versions, selected, seen, ordered, n);
        lemma_unseen_grows(selected, seen, after.0);
        assert forall|j: int|
            i + 1 <= j < keys.len() && selected.contains(#[trigger] keys[j]) implies open_above(
            rank,
            after.0,
            after.1,
            keys[j],
        ) by {
            assert(open_above(rank, seen, ordered, keys[j]));
            assert forall|k: ModuleKey| #[trigger]
                after.0.contains(k) && !after.1.contains(k) implies rank(keys[j]) < rank(k) by {
                assert(seen.contains(k));
                assert(!ordered.contains(k));
            }
        }
        lemma_visit_all_first(
            rank,
            keys,
            i + 1,
            discovered,
            versions,
            selected,
            after.0,
            after.1,
            n,
        );
    }
}

/// Where no module depends on itself, each selected module stands behind every
/// selected module that it depends on.
pub proof fn law_dependencies_first(
    discovered: Discovered,
    root_deps: Seq<BazelDepModel>,
    versions: Seq<(Text, Text)>,
    selected: Seq<ModuleKey>,
)
    requires
        acyclic(discovered, versions, selected),
    ensures
        dependencies_first(
            discovered,
            versions,
            selected,
            dependency_order(discovered, root_deps, versions, selected),
        ),
{
    let rank = choose|rank: spec_fn(ModuleKey) -> nat| #[trigger]
        ranks(rank, discovered, versions, selected);
    let n = (selected.len() + 1) as nat;
    let none: Seq<ModuleKey> = seq![];
    let roots = dep_keys(root_deps, versions);
    lemma_unseen_bound(selected, none);
    lemma_visit_all_first(rank, roots, 0, discovered, versions, selected, none, none, n);
    lemma_visit_all(roots, 0, discovered, versions, selected, none, none, n);
    let first = visit_all(roots, 0, discovered, versions, selected, none, none, n);
    lemma_unseen_bound(selected, first.0);
    lemma_visit_all_first(rank, selected, 0, discovered, versions, selected, first.0, first.1, n);
}

} // verus!
