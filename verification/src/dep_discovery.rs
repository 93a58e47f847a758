//! Which modules have to be looked up, wave by wave.

use vstd::prelude::*;
use vstd::string::*;
use crate::module::{BazelDep, BazelDepModel, DiscoveredBcrModule, DiscoveredBcrModuleModel};
use crate::module_inputs::{BzlmodRootResolutionInput, BzlmodRootResolutionInputModel};
use crate::ordered::{
    Duplicate, KeyMap, KeySet, law_set_put_contains, law_set_put_sorted, put, set_put, sorted_set,
};
use crate::selection::{Discovered, ModuleKey, bzlmod_discovery_dep, overridden_version};

verus! {

/// Where the discovery of modules stands: the modules found, the keys that were
/// ever asked for, and those to ask for next.
pub struct Discovery {
    pub discovered: KeyMap<(String, String), DiscoveredBcrModule>,
    pub scheduled: KeySet<(String, String)>,
    pub frontier: Vec<(String, String)>,
}

/// The model of [`Discovery`].
pub struct DiscoveryModel {
    pub discovered: Discovered,
    pub scheduled: Seq<ModuleKey>,
    pub frontier: Seq<ModuleKey>,
}

impl DeepView for Discovery {
    type V = DiscoveryModel;

    open spec fn deep_view(&self) -> DiscoveryModel {
        DiscoveryModel {
            discovered: self.discovered.deep_view(),
            scheduled: self.scheduled.deep_view(),
            frontier: self.frontier.deep_view(),
        }
    }
}

/// The key that a dependency leads to; none where it is the root module itself.
pub open spec fn discovery_key(root: BzlmodRootResolutionInputModel, dep: BazelDepModel) -> Option<
    ModuleKey,
> {
    if dep.name == root.root_module.name {
        None
    } else {
        let found = overridden_version(
            dep,
            root.archive_overrides,
            root.single_version_overrides,
            root.local_path_overrides,
        );
        Some((found.name, found.version))
    }
}

/// The state with the dependencies from `i` on asked for, those that were not
/// before.
pub open spec fn scheduled(
    root: BzlmodRootResolutionInputModel,
    deps: Seq<BazelDepModel>,
    i: int,
    s: DiscoveryModel,
) -> DiscoveryModel
    decreases deps.len() - i,
{
    if i < 0 || i >= deps.len() {
        s
    } else {
        match discovery_key(root, deps[i]) {
            Some(key) => if s.scheduled.contains(key) {
                scheduled(root, deps, i + 1, s)
            } else {
                scheduled(
                    root,
                    deps,
                    i + 1,
                    DiscoveryModel {
                        scheduled: set_put::<(String, String)>(s.scheduled, key),
                        frontier: s.frontier.push(key),
                        ..s
                    },
                )
            },
            None => scheduled(root, deps, i + 1, s),
        }
    }
}

/// The state with the modules from `i` on found.
pub open spec fn absorbed(
    root: BzlmodRootResolutionInputModel,
    modules: Seq<DiscoveredBcrModuleModel>,
    i: int,
    s: DiscoveryModel,
) -> DiscoveryModel
    decreases modules.len() - i,
{
    if i < 0 || i >= modules.len() {
        s
    } else {
        let next = scheduled(root, modules[i].deps, 0, s);
        absorbed(
            root,
            modules,
            i + 1,
            DiscoveryModel {
                discovered: put::<(String, String), DiscoveredBcrModuleModel>(
                    next.discovered,
                    (modules[i].dep.name, modules[i].dep.version),
                    modules[i],
                ),
                ..next
            },
        )
    }
}

/// The state before any module was found.
pub open spec fn first_wave(root: BzlmodRootResolutionInputModel) -> DiscoveryModel {
    scheduled(
        root,
        root.root_deps + root.builtin_bazel_tools_module.deps,
        0,
        DiscoveryModel { discovered: seq![], scheduled: seq![], frontier: seq![] },
    )
}

/// The state after the modules that were asked for have been found.
pub open spec fn next_wave(
    root: BzlmodRootResolutionInputModel,
    modules: Seq<DiscoveredBcrModuleModel>,
    s: DiscoveryModel,
) -> DiscoveryModel {
    absorbed(root, modules, 0, DiscoveryModel { frontier: seq![], ..s })
}

/// What is asked for next was asked for at no other time: it is on the list of
/// what was ever asked for, and nothing is there twice.
pub open spec fn asks_once(s: DiscoveryModel) -> bool {
    &&& sorted_set::<(String, String)>(s.scheduled)
    &&& s.frontier.no_duplicates()
    &&& forall|i: int| 0 <= i < s.frontier.len() ==> s.scheduled.contains(#[trigger] s.frontier[i])
}

/// Asking for dependencies keeps the list of what was asked for, and adds to
/// what comes next only what was not on it.
pub proof fn law_scheduled(
    root: BzlmodRootResolutionInputModel,
    deps: Seq<BazelDepModel>,
    i: int,
    s: DiscoveryModel,
)
    requires
        asks_once(s),
    ensures
        ({
            let out = scheduled(root, deps, i, s);
            &&& asks_once(out)
            &&& s.frontier.len() <= out.frontier.len()
            &&& out.frontier.take(s.frontier.len() as int) == s.frontier
            &&& forall|k: ModuleKey| #[trigger]
                s.scheduled.contains(k) ==> out.scheduled.contains(k)
            &&& forall|j: int|
                s.frontier.len() <= j < out.frontier.len() ==> !s.scheduled.contains(
                    #[trigger] out.frontier[j],
                )
        }),
    decreases deps.len() - i,
{
    let out = scheduled(root, deps, i, s);
    if 0 <= i < deps.len() {
        match discovery_key(root, deps[i]) {
            Some(key) if !s.scheduled.contains(key) => {
                let next = DiscoveryModel {
                    scheduled: set_put::<(String, String)>(s.scheduled, key),
                    frontier: s.frontier.push(key),
                    ..s
                };
                law_set_put_sorted::<(String, String)>(s.scheduled, key);
                assert forall|k: ModuleKey| #[trigger] s.scheduled.contains(
                    k,
                ) implies next.scheduled.contains(k) by {
                    law_set_put_contains::<(String, String)>(s.scheduled, key, k);
                }
                law_set_put_contains::<(String, String)>(s.scheduled, key, key);
                assert forall|j: int| 0 <= j < next.frontier.len() implies next.scheduled.contains(
                    #[trigger] next.frontier[j],
                ) by {
                    if j < s.frontier.len() {
                        assert(next.frontier[j] == s.frontier[j]);
                    }
                }
                assert forall|a: int, b: int|
                    0 <= a < b < next.frontier.len() implies next.frontier[a]
                    != next.frontier[b] by {
                    assert(next.frontier[a] == s.frontier[a]);
                    if b < s.frontier.len() {
                        assert(next.frontier[b] == s.frontier[b]);
                    } else {
                        assert(s.scheduled.contains(s.frontier[a]));
                    }
                }
                law_scheduled(root, deps, i + 1, next);
                assert(out.frontier.take(s.frontier.len() as int) =~= out.frontier.take(
                    next.frontier.len() as int,
                ).take(s.frontier.len() as int));
                assert(next.frontier.take(s.frontier.len() as int) =~= s.frontier);
                assert forall|j: int|
                    s.frontier.len() <= j < out.frontier.len() implies !s.scheduled.contains(
                    #[trigger] out.frontier[j],
                ) by {
                    if j == s.frontier.len() {
                        assert(out.frontier.take(next.frontier.len() as int)[j]
                            == next.frontier[j]);
                    }
                }
            },
            _ => {
                law_scheduled(root, deps, i + 1, s);
            },
        }
    } else {
        assert(s.frontier.take(s.frontier.len() as int) =~= s.frontier);
    }
}

/// A wave asks for nothing that an earlier one asked for.
pub proof fn law_next_wave(
    root: BzlmodRootResolutionInputModel,
    modules: Seq<DiscoveredBcrModuleModel>,
    s: DiscoveryModel,
)
    requires
        asks_once(s),
    ensures
        asks_once(next_wave(root, modules, s)),
        forall|j: int|
            0 <= j < next_wave(root, modules, s).frontier.len() ==> !s.scheduled.contains(
                #[trigger] next_wave(root, modules, s).frontier[j],
            ),
{
    let empty = DiscoveryModel { frontier: seq![], ..s };
    lemma_absorbed(root, modules, 0, empty, s.scheduled);
}

/// The first wave asks for nothing twice.
pub proof fn law_first_wave(root: BzlmodRootResolutionInputModel)
    ensures
        asks_once(first_wave(root)),
{
    law_scheduled(
        root,
        root.root_deps + root.builtin_bazel_tools_module.deps,
        0,
        DiscoveryModel { discovered: seq![], scheduled: seq![], frontier: seq![] },
    );
}

proof fn lemma_absorbed(
    root: BzlmodRootResolutionInputModel,
    modules: Seq<DiscoveredBcrModuleModel>,
    i: int,
    s: DiscoveryModel,
    known: Seq<ModuleKey>,
)
    requires
        asks_once(s),
        forall|k: ModuleKey| #[trigger] known.contains(k) ==> s.scheduled.contains(k),
        forall|j: int| 0 <= j < s.frontier.len() ==> !known.contains(#[trigger] s.frontier[j]),
    ensures
        ({
            let out = absorbed(root, modules, i, s);
            &&& asks_once(out)
            &&& forall|j: int|
                0 <= j < out.frontier.len() ==> !known.contains(#[trigger] out.frontier[j])
        }),
    decreases modules.len() - i,
{
    if 0 <= i < modules.len() {
        let next = scheduled(root, modules[i].deps, 0, s);
        law_scheduled(root, modules[i].deps, 0, s);
        let after = DiscoveryModel {
            discovered: put::<(String, String), DiscoveredBcrModuleModel>(
                next.discovered,
                (modules[i].dep.name, modules[i].dep.version),
                modules[i],
            ),
            ..next
        };
        assert forall|j: int| 0 <= j < after.frontier.len() implies !known.contains(
            #[trigger] after.frontier[j],
        ) by {
            if j < s.frontier.len() {
                assert(next.frontier.take(s.frontier.len() as int)[j] == s.frontier[j]);
            }
        }
        lemma_absorbed(root, modules, i + 1, after, known);
    }
}

fn schedule(state: &mut Discovery, root: &BzlmodRootResolutionInput, deps: &Vec<BazelDep>)
    ensures
        final(state).deep_view() == scheduled(
            root.deep_view(),
            deps.deep_view(),
            0,
            old(state).deep_view(),
        ),
{
    let ghost model = deps.deep_view();
    let ghost first = state.deep_view();
    let mut i: usize = 0;
    while i < deps.len()
        invariant
            model == deps.deep_view(),
            0 <= i <= deps@.len(),
            scheduled(root.deep_view(), model, 0, first) == scheduled(
                root.deep_view(),
                model,
                i as int,
                state.deep_view(),
            ),
        decreases deps.len() - i,
    {
        assert(model[i as int] == deps@[i as int].deep_view());
        match bzlmod_discovery_dep(
            deps[i].duplicate(),
            root.root_module.name.as_str(),
            &root.archive_overrides,
            &root.single_version_overrides,
            &root.local_path_overrides,
        ) {
            Some(dep) => {
                let key = (dep.name, dep.version);
                let ghost k = key.deep_view();
                if !state.scheduled.contains(&key) {
                    let ghost before = state.frontier.deep_view();
                    state.scheduled.insert(key.duplicate());
                    state.frontier.push(key);
                    assert(state.frontier.deep_view() =~= before.push(k));
                }
            },
            None => {},
        }
        i += 1;
    }
}

impl Discovery {
    /// The modules to ask for first.
    pub fn start(root: &BzlmodRootResolutionInput) -> (r: Self)
        ensures
            r.deep_view() == first_wave(root.deep_view()),
            asks_once(r.deep_view()),
    {
        let mut state = Discovery {
            discovered: KeyMap::new(),
            scheduled: KeySet::new(),
            frontier: Vec::new(),
        };
        let ghost empty = DiscoveryModel {
            discovered: seq![],
            scheduled: seq![],
            frontier: seq![],
        };
        assert(state.deep_view().discovered =~= empty.discovered);
        assert(state.deep_view().scheduled =~= empty.scheduled);
        assert(state.deep_view().frontier =~= empty.frontier);
        let mut deps = root.root_deps.duplicate();
        let mut more = root.builtin_bazel_tools_module.deps.duplicate();
        let ghost a = deps.deep_view();
        let ghost b = more.deep_view();
        deps.append(&mut more);
        assert(deps.deep_view() =~= a + b);
        schedule(&mut state, root, &deps);
        proof {
            law_first_wave(root.deep_view());
        }
        state
    }

    /// Takes in the modules that were asked for, in any order.
    pub fn advance(&mut self, root: &BzlmodRootResolutionInput, modules: &Vec<DiscoveredBcrModule>)
        ensures
            final(self).deep_view() == next_wave(
                root.deep_view(),
                modules.deep_view(),
                old(self).deep_view(),
            ),
            asks_once(old(self).deep_view()) ==> asks_once(final(self).deep_view()),
    {
        proof {
            if asks_once(self.deep_view()) {
                law_next_wave(root.deep_view(), modules.deep_view(), self.deep_view());
            }
        }
        self.frontier = Vec::new();
        assert(self.frontier.deep_view() =~= seq![]);
        let ghost model = modules.deep_view();
        let ghost first = self.deep_view();
        let mut i: usize = 0;
        while i < modules.len()
            invariant
                model == modules.deep_view(),
                0 <= i <= modules@.len(),
                absorbed(root.deep_view(), model, 0, first) == absorbed(
                    root.deep_view(),
                    model,
                    i as int,
                    self.deep_view(),
                ),
            decreases modules.len() - i,
        {
            let module = &modules[i];
            assert(model[i as int] == module.deep_view());
            schedule(self, root, &module.deps);
            let key = (module.dep.name.clone(), module.dep.version.clone());
            self.discovered.insert(key, module.duplicate());
            i += 1;
        }
    }
}

} // verus!
