//! What holds of every discovery of modules.

use vstd::prelude::*;
use crate::dep_discovery::{
    DiscoveryModel, absorbed, discovery_key, first_wave, next_wave, scheduled,
};
use crate::module::{BazelDepModel, DiscoveredBcrModuleModel};
use crate::module_inputs::BzlmodRootResolutionInputModel;
use crate::ordered::{
    law_lookup_after_put, law_put_sorted, law_set_put_contains, lemma_push_contains, lookup, put,
    set_put, sorted_items,
};
use crate::selection::ModuleKey;

verus! {

/// The dependencies lead to modules that were asked for.
pub open spec fn deps_asked(
    root: BzlmodRootResolutionInputModel,
    deps: Seq<BazelDepModel>,
    asked: Seq<ModuleKey>,
) -> bool {
    forall|i: int|
        0 <= i < deps.len() ==> (discovery_key(root, #[trigger] deps[i]) matches Some(key)
            ==> asked.contains(key))
}

/// Whatever was asked for was found or is asked for next, but for the modules that
/// are still to come in; and whatever the root and the found modules depend on was
/// asked for.
pub open spec fn nothing_missed(
    root: BzlmodRootResolutionInputModel,
    coming: Seq<ModuleKey>,
    s: DiscoveryModel,
) -> bool {
    &&& sorted_items::<(String, String), DiscoveredBcrModuleModel>(s.discovered)
    &&& deps_asked(root, root.root_deps + root.builtin_bazel_tools_module.deps, s.scheduled)
    &&& forall|k: ModuleKey| #[trigger]
        s.scheduled.contains(k) ==> lookup(s.discovered, k) is Some || s.frontier.contains(k)
            || coming.contains(k)
    &&& forall|k: ModuleKey|
        (#[trigger] lookup(s.discovered, k)) matches Some(module) ==> deps_asked(
            root,
            module.deps,
            s.scheduled,
        )
}

/// The modules are those of the keys, in order.
pub open spec fn modules_of(modules: Seq<DiscoveredBcrModuleModel>, keys: Seq<ModuleKey>) -> bool {
    &&& modules.len() == keys.len()
    &&& forall|i: int|
        0 <= i < keys.len() ==> ((#[trigger] modules[i]).dep.name, modules[i].dep.version)
            == keys[i]
}

proof fn lemma_asked_more(
    root: BzlmodRootResolutionInputModel,
    deps: Seq<BazelDepModel>,
    asked: Seq<ModuleKey>,
    more: Seq<ModuleKey>,
)
    requires
        deps_asked(root, deps, asked),
        forall|k: ModuleKey| #[trigger] asked.contains(k) ==> more.contains(k),
    ensures
        deps_asked(root, deps, more),
{
}

/// Asking for dependencies asks for all of them, and forgets nothing.
proof fn lemma_scheduled(
    root: BzlmodRootResolutionInputModel,
    deps: Seq<BazelDepModel>,
    i: int,
    s: DiscoveryModel,
)
    requires
        0 <= i,
    ensures
        ({
            let out = scheduled(root, deps, i, s);
            &&& out.discovered == s.discovered
            &&& forall|k: ModuleKey| #[trigger]
                s.scheduled.contains(k) ==> out.scheduled.contains(k)
            &&& forall|k: ModuleKey| #[trigger]
                s.frontier.contains(k) ==> out.frontier.contains(k)
            &&& forall|k: ModuleKey| #[trigger]
                out.scheduled.contains(k) ==> s.scheduled.contains(k) || out.frontier.contains(k)
            &&& forall|j: int|
                i <= j < deps.len() ==> (discovery_key(root, #[trigger] deps[j]) matches Some(key)
                    ==> out.scheduled.contains(key))
        }),
    decreases deps.len() - i,
{
    if i < deps.len() {
        match discovery_key(root, deps[i]) {
            Some(key) if !s.scheduled.contains(key) => {
                let next = DiscoveryModel {
                    scheduled: set_put::<(String, String)>(s.scheduled, key),
                    frontier: s.frontier.push(key),
                    ..s
                };
                assert forall|k: ModuleKey| #[trigger] next.scheduled.contains(k) == (
                s.scheduled.contains(k) || k == key) by {
                    law_set_put_contains::<(String, String)>(s.scheduled, key, k);
                }
                assert forall|k: ModuleKey| #[trigger] next.frontier.contains(k) == (
                s.frontier.contains(k) || k == key) by {
                    lemma_push_contains(s.frontier, key, k);
                }
                lemma_scheduled(root, deps, i + 1, next);
                let out = scheduled(root, deps, i + 1, next);
                assert forall|k: ModuleKey| #[trigger] s.scheduled.contains(
                    k,
                ) implies out.scheduled.contains(k) by {
                    assert(next.scheduled.contains(k));
                }
                assert forall|k: ModuleKey| #[trigger] s.frontier.contains(
                    k,
                ) implies out.frontier.contains(k) by {
                    assert(next.frontier.contains(k));
                }
                assert(next.scheduled.contains(key));
                assert(next.frontier.contains(key));
            },
            _ => {
                lemma_scheduled(root, deps, i + 1, s);
            },
        }
    }
}

proof fn lemma_absorbed(
    root: BzlmodRootResolutionInputModel,
    modules: Seq<DiscoveredBcrModuleModel>,
    keys: Seq<ModuleKey>,
    i: int,
    s: DiscoveryModel,
)
    requires
        0 <= i <= keys.len(),
        modules_of(modules, keys),
        nothing_missed(root, keys.skip(i), s),
    ensures
        nothing_missed(root, seq![], absorbed(root, modules, i, s)),
    decreases modules.len() - i,
{
    if i < modules.len() {
        let module = modules[i];
        let key = keys[i];
        let asked = scheduled(root, module.deps, 0, s);
        lemma_scheduled(root, module.deps, 0, s);
        let next = DiscoveryModel {
            discovered: put::<(String, String), DiscoveredBcrModuleModel>(
                asked.discovered,
                key,
                module,
            ),
            ..asked
        };
        law_put_sorted::<(String, String), DiscoveredBcrModuleModel>(s.discovered, key, module);
        lemma_asked_more(
            root,
            root.root_deps + root.builtin_bazel_tools_module.deps,
            s.scheduled,
            next.scheduled,
        );
        assert forall|k: ModuleKey| #[trigger] next.scheduled.contains(k) implies lookup(
            next.discovered,
            k,
        ) is Some || next.frontier.contains(k) || keys.skip(i + 1).contains(k) by {
            law_lookup_after_put::<(String, String), DiscoveredBcrModuleModel>(
                s.discovered,
                key,
                module,
                k,
            );
            if s.scheduled.contains(k) && keys.skip(i).contains(k) {
                let j = choose|j: int| 0 <= j < keys.skip(i).len() && keys.skip(i)[j] == k;
                if j > 0 {
                    assert(keys.skip(i + 1)[j - 1] == k);
                }
            }
        }
        assert forall|k: ModuleKey| (
        #[trigger] lookup(next.discovered, k)) is Some implies deps_asked(
            root,
            lookup(next.discovered, k)->0.deps,
            next.scheduled,
        ) by {
            law_lookup_after_put::<(String, String), DiscoveredBcrModuleModel>(
                s.discovered,
                key,
                module,
                k,
            );
            if k != key {
                let found = lookup(s.discovered, k)->0;
                lemma_asked_more(root, found.deps, s.scheduled, next.scheduled);
            }
        }
        lemma_absorbed(root, modules, keys, i + 1, next);
    } else {
        assert(keys.skip(i) =~= seq![]);
    }
}

/// Before any module was found, nothing is missed.
pub proof fn law_first_wave_complete(root: BzlmodRootResolutionInputModel)
    ensures
        nothing_missed(root, seq![], first_wave(root)),
{
    let empty = DiscoveryModel { discovered: seq![], scheduled: seq![], frontier: seq![] };
    lemma_scheduled(root, root.root_deps + root.builtin_bazel_tools_module.deps, 0, empty);
}

/// Nothing is missed once the modules that were asked for have come in.
pub proof fn law_next_wave_complete(
    root: BzlmodRootResolutionInputModel,
    modules: Seq<DiscoveredBcrModuleModel>,
    s: DiscoveryModel,
)
    requires
        nothing_missed(root, seq![], s),
        modules_of(modules, s.frontier),
    ensures
        nothing_missed(root, seq![], next_wave(root, modules, s)),
{
    let waiting = DiscoveryModel { frontier: seq![], ..s };
    assert(s.frontier.skip(0) =~= s.frontier);
    assert(nothing_missed(root, s.frontier, waiting));
    lemma_absorbed(root, modules, s.frontier, 0, waiting);
}

/// Where nothing is left to ask for, every module that the root or a found module
/// depends on was found.
pub proof fn law_discovery_complete(
    root: BzlmodRootResolutionInputModel,
    s: DiscoveryModel,
    dep: BazelDepModel,
    by: ModuleKey,
)
    requires
        nothing_missed(root, seq![], s),
        s.frontier.len() == 0,
    ensures
        ((root.root_deps + root.builtin_bazel_tools_module.deps).contains(dep) || (lookup(
            s.discovered,
            by,
        ) matches Some(module) && module.deps.contains(dep))) ==> (discovery_key(
            root,
            dep,
        ) matches Some(key) ==> lookup(s.discovered, key) is Some),
{
    let starts = root.root_deps + root.builtin_bazel_tools_module.deps;
    if let Some(key) = discovery_key(root, dep) {
        if starts.contains(dep) {
            let i = choose|i: int| 0 <= i < starts.len() && starts[i] == dep;
            assert(discovery_key(root, starts[i]) == Some(key));
            assert(s.scheduled.contains(key));
        }
        if let Some(module) = lookup(s.discovered, by) {
            if module.deps.contains(dep) {
                let i = choose|i: int| 0 <= i < module.deps.len() && module.deps[i] == dep;
                assert(discovery_key(root, module.deps[i]) == Some(key));
                assert(s.scheduled.contains(key));
            }
        }
    }
}

} // verus!
