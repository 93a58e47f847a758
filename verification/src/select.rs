//! Which version of each module counts, and the orders in which the selected
//! modules are visited.

use std::cmp::Ordering;
use vstd::prelude::*;
use vstd::string::*;
use crate::module::{
    BazelDep, BazelDepModel, BzlmodSelectionResult, BzlmodSelectionResultModel, DiscoveredBcrModule,
    DiscoveredBcrModuleModel, InputError,
};
use crate::ordered::{
    Duplicate, KeyMap, KeySet, law_lookup_after_put, law_put_sorted, law_set_put_contains,
    lemma_push_contains, lookup, put, result_view, set_put, sorted_items, sorted_set,
};
use crate::selection::{Discovered, ModuleKey};
use crate::text::{Text, concat, concat3, same};
use crate::version::{
    bzlmod_version_cmp, law_version_order_irreflexive, law_version_order_transitive, version_lt,
    version_of, version_order,
};

verus! {

/// The keys of the entries.
pub open spec fn map_keys<K, V>(items: Seq<(K, V)>) -> Seq<K> {
    Seq::new(items.len(), |i: int| items[i].0)
}

/// The highest version of each module among the keys from `i` on and those
/// already found; the message where versions cannot be compared.
pub open spec fn best_versions(keys: Seq<ModuleKey>, i: int, done: Seq<(Text, Text)>) -> Result<
    Seq<(Text, Text)>,
    Text,
>
    decreases keys.len() - i,
{
    if i < 0 || i >= keys.len() {
        Ok(done)
    } else {
        let (name, version) = keys[i];
        match lookup(done, name) {
            None => best_versions(keys, i + 1, put::<String, Text>(done, name, version)),
            Some(existing) => match version_order(version, existing) {
                Err(why) => Err("Invalid version for module `"@ + name + "`: "@ + why),
                Ok(order) => if order == Ordering::Greater {
                    best_versions(keys, i + 1, put::<String, Text>(done, name, version))
                } else {
                    best_versions(keys, i + 1, done)
                },
            },
        }
    }
}

/// `found` is at least as high as `version`.
pub open spec fn covers_version(found: Text, version: Text) -> bool {
    found == version || (version_of(found) is Ok && version_of(version) is Ok && !version_lt(
        version_of(found)->Ok_0,
        version_of(version)->Ok_0,
    ))
}

/// Each key up to `i` is covered by the version found for its module.
pub open spec fn covers_keys(keys: Seq<ModuleKey>, i: int, done: Seq<(Text, Text)>) -> bool {
    forall|j: int|
        0 <= j < i ==> lookup(done, (#[trigger] keys[j]).0) is Some && covers_version(
            lookup(done, keys[j].0)->0,
            keys[j].1,
        )
}

/// Each key is covered by the version found for its module.
pub open spec fn covers_all(keys: Seq<ModuleKey>, found: Seq<(Text, Text)>) -> bool {
    covers_keys(keys, keys.len() as int, found)
}

proof fn lemma_covers_transitive(a: Text, b: Text, c: Text)
    requires
        version_of(a) is Ok,
        version_of(b) is Ok,
        version_lt(version_of(b)->Ok_0, version_of(a)->Ok_0),
        covers_version(b, c),
    ensures
        covers_version(a, c),
{
    if b != c {
        let x = version_of(a)->Ok_0;
        let y = version_of(b)->Ok_0;
        let z = version_of(c)->Ok_0;
        if version_lt(x, z) {
            law_version_order_transitive(y, x, z);
        }
    } else {
        let x = version_of(a)->Ok_0;
        let y = version_of(b)->Ok_0;
        if version_lt(x, y) {
            law_version_order_transitive(x, y, x);
            law_version_order_irreflexive(x);
        }
    }
}

/// The version selected of each module is the highest among the keys.
pub proof fn law_best_versions(keys: Seq<ModuleKey>, i: int, done: Seq<(Text, Text)>)
    requires
        0 <= i <= keys.len(),
        sorted_items::<String, Text>(done),
        covers_keys(keys, i, done),
    ensures
        best_versions(keys, i, done) matches Ok(found) ==> sorted_items::<String, Text>(found)
            && covers_all(keys, found),
    decreases keys.len() - i,
{
    if i < keys.len() {
        let (name, version) = keys[i];
        let next = put::<String, Text>(done, name, version);
        law_put_sorted::<String, Text>(done, name, version);
        match lookup(done, name) {
            None => {
                assert forall|j: int| 0 <= j < i + 1 implies lookup(
                    next,
                    (#[trigger] keys[j]).0,
                ) is Some && covers_version(lookup(next, keys[j].0)->0, keys[j].1) by {
                    law_lookup_after_put::<String, Text>(done, name, version, keys[j].0);
                }
                law_best_versions(keys, i + 1, next);
            },
            Some(existing) => {
                match version_order(version, existing) {
                    Err(_) => {},
                    Ok(order) => {
                        if order == Ordering::Greater {
                            assert forall|j: int| 0 <= j < i + 1 implies lookup(
                                next,
                                (#[trigger] keys[j]).0,
                            ) is Some && covers_version(
                                lookup(next, keys[j].0)->0,
                                keys[j].1,
                            ) by {
                                law_lookup_after_put::<String, Text>(
                                    done,
                                    name,
                                    version,
                                    keys[j].0,
                                );
                                if j < i && keys[j].0 == name {
                                    lemma_covers_transitive(version, existing, keys[j].1);
                                }
                            }
                            law_best_versions(keys, i + 1, next);
                        } else {
                            assert(covers_version(existing, version)) by {
                                let x = version_of(version)->Ok_0;
                                let y = version_of(existing)->Ok_0;
                                if version_lt(y, x) {
                                    if version_lt(x, y) {
                                        law_version_order_transitive(x, y, x);
                                        law_version_order_irreflexive(x);
                                    }
                                }
                            }
                            law_best_versions(keys, i + 1, done);
                        }
                    },
                }
            },
        }
    }
}

fn select_versions(discovered: &KeyMap<(String, String), DiscoveredBcrModule>) -> (r: Result<
    KeyMap<String, String>,
    InputError,
>)
    ensures
        result_view(r) == best_versions(map_keys(discovered.deep_view()), 0, seq![]),
{
    let ghost keys = map_keys(discovered.deep_view());
    let mut found: KeyMap<String, String> = KeyMap::new();
    let mut i: usize = 0;
    let ghost mut k: int = 0;
    assert(found.deep_view() =~= seq![]);
    while i < discovered.entries.len()
        invariant
            k == i,
            keys == map_keys(discovered.deep_view()),
            0 <= i <= discovered.entries@.len(),
            best_versions(keys, 0, seq![]) == best_versions(keys, k, found.deep_view()),
        decreases discovered.entries.len() - i,
    {
        let key = &discovered.entries[i].0;
        assert(discovered.deep_view()[k] == discovered.entries@[k].deep_view());
        assert(keys[k] == key.deep_view());
        match found.get(&key.0) {
            Some(existing) => match bzlmod_version_cmp(key.1.as_str(), existing.as_str()) {
                Err(why) => {
                    let mut message = concat3("Invalid version for module `", key.0.as_str(), "`: ");
                    message.append(why.message.as_str());
                    return Err(InputError { message });
                },
                Ok(Ordering::Greater) => {
                    found.insert(key.0.clone(), key.1.clone());
                },
                Ok(_) => {},
            },
            None => {
                found.insert(key.0.clone(), key.1.clone());
            },
        }
        i += 1;
        proof {
            k = k + 1;
        }
    }
    Ok(found)
}

/// The selected versions of the dependencies that have one.
pub open spec fn dep_keys(deps: Seq<BazelDepModel>, versions: Seq<(Text, Text)>) -> Seq<ModuleKey>
    decreases deps.len(),
{
    if deps.len() == 0 {
        seq![]
    } else {
        let before = dep_keys(deps.drop_last(), versions);
        match lookup(versions, deps.last().name) {
            Some(version) => before.push((deps.last().name, version)),
            None => before,
        }
    }
}

fn push_dep_keys(
    queue: &mut Vec<(String, String)>,
    deps: &Vec<BazelDep>,
    versions: &KeyMap<String, String>,
)
    ensures
        final(queue).deep_view() == old(queue).deep_view() + dep_keys(
            deps.deep_view(),
            versions.deep_view(),
        ),
{
    let ghost model = deps.deep_view();
    let ghost first = queue.deep_view();
    let mut i: usize = 0;
    assert(first + seq![] =~= first);
    while i < deps.len()
        invariant
            model == deps.deep_view(),
            0 <= i <= deps@.len(),
            queue.deep_view() =~= first + dep_keys(model.take(i as int), versions.deep_view()),
        decreases deps.len() - i,
    {
        let ghost before = queue.deep_view();
        proof {
            let t = model.take(i + 1);
            assert(t.drop_last() =~= model.take(i as int));
            assert(t.last() == deps@[i as int].deep_view());
        }
        match versions.get(&deps[i].name) {
            Some(version) => {
                let ghost g = (deps@[i as int].name@, version@);
                queue.push((deps[i].name.clone(), version.clone()));
                assert(queue.deep_view() =~= before.push(g));
            },
            None => {},
        }
        i += 1;
    }
    assert(model.take(i as int) =~= model);
}

/// How many of the keys are not among those seen.
pub open spec fn unseen(keys: Seq<ModuleKey>, seen: Seq<ModuleKey>) -> nat
    decreases keys.len(),
{
    if keys.len() == 0 {
        0
    } else {
        unseen(keys.drop_last(), seen) + (if seen.contains(keys.last()) {
            0nat
        } else {
            1nat
        })
    }
}

pub proof fn lemma_unseen_decreases(keys: Seq<ModuleKey>, seen: Seq<ModuleKey>, key: ModuleKey)
    ensures
        unseen(keys, set_put::<(String, String)>(seen, key)) <= unseen(keys, seen),
        keys.contains(key) && !seen.contains(key) ==> unseen(
            keys,
            set_put::<(String, String)>(seen, key),
        ) < unseen(keys, seen),
    decreases keys.len(),
{
    if keys.len() > 0 {
        lemma_unseen_decreases(keys.drop_last(), seen, key);
        law_set_put_contains::<(String, String)>(seen, key, keys.last());
        if keys.contains(key) && keys.last() != key {
            let j = choose|j: int| 0 <= j < keys.len() && keys[j] == key;
            assert(keys.drop_last()[j] == key);
        }
    }
}

/// The message for a selected version that nothing is known of.
pub open spec fn undiscovered_message(key: ModuleKey) -> Text {
    "selected bzlmod module `"@ + key.0 + "@"@ + key.1 + "` was not discovered"@
}

pub proof fn lemma_discovered_key(discovered: Discovered, key: ModuleKey)
    ensures
        lookup(discovered, key) is Some ==> map_keys(discovered).contains(key),
    decreases discovered.len(),
{
    if discovered.len() > 0 {
        let keys = map_keys(discovered);
        if discovered[0].0 == key {
            assert(keys[0] == key);
        } else {
            lemma_discovered_key(discovered.skip(1), key);
            let rest = map_keys(discovered.skip(1));
            if rest.contains(key) {
                let j = choose|j: int| 0 <= j < rest.len() && rest[j] == key;
                assert(keys[j + 1] == key);
            }
        }
    }
}

/// The modules reached from those in the queue, breadth first: as a set, and in
/// the order in which they are reached. Only selected versions are queued.
pub open spec fn breadth_first(
    queue: Seq<ModuleKey>,
    seen: Seq<ModuleKey>,
    order: Seq<ModuleKey>,
    discovered: Discovered,
    versions: Seq<(Text, Text)>,
) -> Result<(Seq<ModuleKey>, Seq<ModuleKey>), Text>
    decreases unseen(map_keys(discovered), seen), queue.len(),
{
    if queue.len() == 0 {
        Ok((seen, order))
    } else if seen.contains(queue[0]) {
        breadth_first(queue.skip(1), seen, order, discovered, versions)
    } else {
        match lookup(discovered, queue[0]) {
            None => Err(undiscovered_message(queue[0])),
            Some(module) => {
                proof {
                    lemma_discovered_key(discovered, queue[0]);
                    lemma_unseen_decreases(map_keys(discovered), seen, queue[0]);
                }
                breadth_first(
                    queue.skip(1) + dep_keys(module.deps, versions),
                    set_put::<(String, String)>(seen, queue[0]),
                    order.push(queue[0]),
                    discovered,
                    versions,
                )
            },
        }
    }
}

/// Where the traversal starts: at the root's dependencies and the built-in
/// tools.
pub open spec fn start_keys(root_deps: Seq<BazelDepModel>, versions: Seq<(Text, Text)>) -> Seq<
    ModuleKey,
> {
    dep_keys(root_deps, versions) + (match lookup(versions, "bazel_tools"@) {
        Some(version) => seq![("bazel_tools"@, version)],
        None => seq![],
    })
}

fn visit_breadth_first(
    root_deps: &Vec<BazelDep>,
    discovered: &KeyMap<(String, String), DiscoveredBcrModule>,
    versions: &KeyMap<String, String>,
) -> (r: Result<(KeySet<(String, String)>, Vec<(String, String)>), InputError>)
    ensures
        result_view(r) == breadth_first(
            start_keys(root_deps.deep_view(), versions.deep_view()),
            seq![],
            seq![],
            discovered.deep_view(),
            versions.deep_view(),
        ),
{
    let ghost vs = versions.deep_view();
    let mut queue: Vec<(String, String)> = Vec::new();
    assert(queue.deep_view() =~= seq![]);
    push_dep_keys(&mut queue, root_deps, versions);
    match versions.get(&"bazel_tools".to_owned()) {
        Some(version) => {
            queue.push(("bazel_tools".to_owned(), version.clone()));
        },
        None => {},
    }
    assert(queue.deep_view() =~= start_keys(root_deps.deep_view(), vs));
    let mut seen: KeySet<(String, String)> = KeySet::new();
    let mut order: Vec<(String, String)> = Vec::new();
    let mut head: usize = 0;
    assert(order.deep_view() =~= seq![]);
    assert(seen.deep_view() =~= seq![]);
    assert(queue.deep_view().skip(0) =~= queue.deep_view());
    while head < queue.len()
        invariant
            vs == versions.deep_view(),
            0 <= head <= queue@.len(),
            sorted_set::<(String, String)>(seen.deep_view()),
            breadth_first(
                start_keys(root_deps.deep_view(), vs),
                seq![],
                seq![],
                discovered.deep_view(),
                vs,
            ) == breadth_first(
                queue.deep_view().skip(head as int),
                seen.deep_view(),
                order.deep_view(),
                discovered.deep_view(),
                vs,
            ),
        decreases unseen(map_keys(discovered.deep_view()), seen.deep_view()), queue.len() - head,
    {
        let ghost rest = queue.deep_view().skip(head as int);
        let key = queue[head].duplicate();
        proof {
            assert(rest[0] == queue.deep_view()[head as int]);
            assert(queue.deep_view()[head as int] == queue@[head as int].deep_view());
            assert(rest.skip(1) =~= queue.deep_view().skip(head + 1));
            lemma_discovered_key(discovered.deep_view(), key.deep_view());
            lemma_unseen_decreases(
                map_keys(discovered.deep_view()),
                seen.deep_view(),
                key.deep_view(),
            );
        }
        let ghost before = seen.deep_view();
        if seen.contains(&key) {
            head += 1;
            continue ;
        }
        match discovered.get(&key) {
            None => {
                let mut message = concat3("selected bzlmod module `", key.0.as_str(), "@");
                message.append(key.1.as_str());
                message.append("` was not discovered");
                return Err(InputError { message });
            },
            Some(module) => {
                let ghost so_far = queue.deep_view();
                let ghost done = order.deep_view();
                push_dep_keys(&mut queue, &module.deps, versions);
                proof {
                    let added = dep_keys(module.deps.deep_view(), vs);
                    assert(queue.deep_view().skip(head + 1) =~= so_far.skip(head + 1) + added);
                }
                seen.insert(key.duplicate());
                let ghost g = key.deep_view();
                order.push(key);
                assert(order.deep_view() =~= done.push(g));
            },
        }
        head += 1;
    }
    Ok((seen, order))
}

/// The visit of a module, its dependencies before itself: what is seen and what
/// is ordered afterwards. `n` bounds the depth.
pub open spec fn visit(
    key: ModuleKey,
    discovered: Discovered,
    versions: Seq<(Text, Text)>,
    selected: Seq<ModuleKey>,
    seen: Seq<ModuleKey>,
    ordered: Seq<ModuleKey>,
    n: nat,
) -> (Seq<ModuleKey>, Seq<ModuleKey>)
    decreases n, 0nat,
{
    if n == 0 || !selected.contains(key) || seen.contains(key) {
        (seen, ordered)
    } else {
        let entered = set_put::<(String, String)>(seen, key);
        let after = match lookup(discovered, key) {
            Some(module) => visit_all(
                dep_keys(module.deps, versions),
                0,
                discovered,
                versions,
                selected,
                entered,
                ordered,
                (n - 1) as nat,
            ),
            None => (entered, ordered),
        };
        (after.0, after.1.push(key))
    }
}

/// The visits of the modules from `i` on.
pub open spec fn visit_all(
    keys: Seq<ModuleKey>,
    i: int,
    discovered: Discovered,
    versions: Seq<(Text, Text)>,
    selected: Seq<ModuleKey>,
    seen: Seq<ModuleKey>,
    ordered: Seq<ModuleKey>,
    n: nat,
) -> (Seq<ModuleKey>, Seq<ModuleKey>)
    decreases n, 1nat, keys.len() - i,
{
    if i < 0 || i >= keys.len() {
        (seen, ordered)
    } else {
        let after = visit(keys[i], discovered, versions, selected, seen, ordered, n);
        visit_all(keys, i + 1, discovered, versions, selected, after.0, after.1, n)
    }
}

/// The selected modules, dependencies first: as the root's dependencies lead to
/// them, then the others.
pub open spec fn dependency_order(
    discovered: Discovered,
    root_deps: Seq<BazelDepModel>,
    versions: Seq<(Text, Text)>,
    selected: Seq<ModuleKey>,
) -> Seq<ModuleKey> {
    let n = (selected.len() + 1) as nat;
    let from_root = visit_all(
        dep_keys(root_deps, versions),
        0,
        discovered,
        versions,
        selected,
        seq![],
        seq![],
        n,
    );
    visit_all(selected, 0, discovered, versions, selected, from_root.0, from_root.1, n).1
}

fn visit_key(
    key: &(String, String),
    discovered: &KeyMap<(String, String), DiscoveredBcrModule>,
    versions: &KeyMap<String, String>,
    selected: &KeySet<(String, String)>,
    seen: &mut KeySet<(String, String)>,
    ordered: &mut Vec<(String, String)>,
    n: u128,
)
    ensures
        (final(seen).deep_view(), final(ordered).deep_view()) == visit(
            key.deep_view(),
            discovered.deep_view(),
            versions.deep_view(),
            selected.deep_view(),
            old(seen).deep_view(),
            old(ordered).deep_view(),
            n as nat,
        ),
    decreases n, 0nat,
{
    if n == 0 || !selected.contains(key) || seen.contains(key) {
        return ;
    }
    seen.insert(key.duplicate());
    match discovered.get(key) {
        Some(module) => {
            let mut keys: Vec<(String, String)> = Vec::new();
            assert(keys.deep_view() =~= seq![]);
            push_dep_keys(&mut keys, &module.deps, versions);
            assert(keys.deep_view() =~= dep_keys(module.deps.deep_view(), versions.deep_view()));
            visit_keys(&keys, discovered, versions, selected, seen, ordered, n - 1);
        },
        None => {},
    }
    let ghost before = ordered.deep_view();
    ordered.push(key.duplicate());
    assert(ordered.deep_view() =~= before.push(key.deep_view()));
}

fn visit_keys(
    keys: &Vec<(String, String)>,
    discovered: &KeyMap<(String, String), DiscoveredBcrModule>,
    versions: &KeyMap<String, String>,
    selected: &KeySet<(String, String)>,
    seen: &mut KeySet<(String, String)>,
    ordered: &mut Vec<(String, String)>,
    n: u128,
)
    ensures
        (final(seen).deep_view(), final(ordered).deep_view()) == visit_all(
            keys.deep_view(),
            0,
            discovered.deep_view(),
            versions.deep_view(),
            selected.deep_view(),
            old(seen).deep_view(),
            old(ordered).deep_view(),
            n as nat,
        ),
    decreases n, 1nat,
{
    let ghost model = keys.deep_view();
    let ghost first = (seen.deep_view(), ordered.deep_view());
    let mut i: usize = 0;
    while i < keys.len()
        invariant
            model == keys.deep_view(),
            0 <= i <= keys@.len(),
            visit_all(
                model,
                0,
                discovered.deep_view(),
                versions.deep_view(),
                selected.deep_view(),
                first.0,
                first.1,
                n as nat,
            ) == visit_all(
                model,
                i as int,
                discovered.deep_view(),
                versions.deep_view(),
                selected.deep_view(),
                seen.deep_view(),
                ordered.deep_view(),
                n as nat,
            ),
        decreases keys.len() - i,
    {
        assert(model[i as int] == keys@[i as int].deep_view());
        visit_key(&keys[i], discovered, versions, selected, seen, ordered, n);
        i += 1;
    }
}

/// The selected modules, dependencies first.
pub fn bzlmod_selected_keys_dependency_first(
    discovered: &KeyMap<(String, String), DiscoveredBcrModule>,
    root_deps: &Vec<BazelDep>,
    selected_versions: &KeyMap<String, String>,
    selected_keys: &KeySet<(String, String)>,
) -> (r: Vec<(String, String)>)
    ensures
        r.deep_view() == dependency_order(
            discovered.deep_view(),
            root_deps.deep_view(),
            selected_versions.deep_view(),
            selected_keys.deep_view(),
        ),
{
    let n: u128 = selected_keys.items.len() as u128 + 1;
    let mut seen: KeySet<(String, String)> = KeySet::new();
    let mut ordered: Vec<(String, String)> = Vec::new();
    assert(ordered.deep_view() =~= seq![]);
    assert(seen.deep_view() =~= seq![]);
    let mut keys: Vec<(String, String)> = Vec::new();
    assert(keys.deep_view() =~= seq![]);
    push_dep_keys(&mut keys, root_deps, selected_versions);
    assert(keys.deep_view() =~= dep_keys(root_deps.deep_view(), selected_versions.deep_view()));
    visit_keys(&keys, discovered, selected_versions, selected_keys, &mut seen, &mut ordered, n);
    visit_keys(
        &selected_keys.items,
        discovered,
        selected_versions,
        selected_keys,
        &mut seen,
        &mut ordered,
        n,
    );
    ordered
}

/// What is ordered is seen and selected, and stands once.
pub open spec fn order_invariant(
    selected: Seq<ModuleKey>,
    seen: Seq<ModuleKey>,
    ordered: Seq<ModuleKey>,
) -> bool {
    &&& ordered.no_duplicates()
    &&& forall|k: ModuleKey|
        #[trigger] ordered.contains(k) ==> seen.contains(k) && selected.contains(k)
}

/// What a visit adds: nothing is lost, and what is newly seen is newly ordered.
pub open spec fn order_grows(
    seen: Seq<ModuleKey>,
    ordered: Seq<ModuleKey>,
    seen_after: Seq<ModuleKey>,
    ordered_after: Seq<ModuleKey>,
) -> bool {
    &&& forall|k: ModuleKey| #[trigger] seen.contains(k) ==> seen_after.contains(k)
    &&& forall|k: ModuleKey| #[trigger] ordered.contains(k) ==> ordered_after.contains(k)
    &&& forall|k: ModuleKey| #[trigger] seen_after.contains(k) ==> seen.contains(k)
        || ordered_after.contains(k)
}

pub proof fn lemma_visit(
    key: ModuleKey,
    discovered: Discovered,
    versions: Seq<(Text, Text)>,
    selected: Seq<ModuleKey>,
    seen: Seq<ModuleKey>,
    ordered: Seq<ModuleKey>,
    n: nat,
)
    requires
        order_invariant(selected, seen, ordered),
    ensures
        ({
            let after = visit(key, discovered, versions, selected, seen, ordered, n);
            &&& order_invariant(selected, after.0, after.1)
            &&& order_grows(seen, ordered, after.0, after.1)
            &&& n > 0 && selected.contains(key) ==> after.0.contains(key)
            &&& forall|k: ModuleKey| #[trigger] after.1.contains(k) ==> ordered.contains(k)
                || !seen.contains(k)
        }),
    decreases n, 0nat,
{
    if n == 0 || !selected.contains(key) || seen.contains(key) {
    } else {
        let entered = set_put::<(String, String)>(seen, key);
        assert forall|k: ModuleKey| #[trigger] entered.contains(k) == (seen.contains(k) || k
            == key) by {
            law_set_put_contains::<(String, String)>(seen, key, k);
        }
        let middle = match lookup(discovered, key) {
            Some(module) => {
                let keys = dep_keys(module.deps, versions);
                lemma_visit_all(
                    keys,
                    0,
                    discovered,
                    versions,
                    selected,
                    entered,
                    ordered,
                    (n - 1) as nat,
                );
                visit_all(
                    keys,
                    0,
                    discovered,
                    versions,
                    selected,
                    entered,
                    ordered,
                    (n - 1) as nat,
                )
            },
            None => (entered, ordered),
        };
        assert(!middle.1.contains(key)) by {
            if middle.1.contains(key) {
                assert(ordered.contains(key) || !entered.contains(key));
            }
        }
        let after = visit(key, discovered, versions, selected, seen, ordered, n);
        assert(after.1 == middle.1.push(key));
        assert forall|k: ModuleKey| #[trigger] after.1.contains(k) == (middle.1.contains(k) || k
            == key) by {
            lemma_push_contains(middle.1, key, k);
        }
        assert(after.0 == middle.0);
        assert(entered.contains(key));
        assert(order_grows(entered, ordered, middle.0, middle.1));
        assert(middle.0.contains(key));
        assert forall|k: ModuleKey| #[trigger] seen.contains(k) implies after.0.contains(k) by {
            assert(entered.contains(k));
        }
        assert forall|k: ModuleKey| #[trigger] after.0.contains(k) implies seen.contains(k)
            || after.1.contains(k) by {
            assert(entered.contains(k) || middle.1.contains(k));
            assert(after.1.contains(k) == (middle.1.contains(k) || k == key));
        }
        assert forall|k: ModuleKey| #[trigger] ordered.contains(k) implies after.1.contains(k) by {
            assert(middle.1.contains(k));
        }
        assert forall|k: ModuleKey| #[trigger] after.1.contains(k) implies ordered.contains(k)
            || !seen.contains(k) by {
            if k != key {
                assert(middle.1.contains(k));
                assert(ordered.contains(k) || !entered.contains(k));
                assert(entered.contains(k) == (seen.contains(k) || k == key));
            }
        }
        assert(after.1.no_duplicates()) by {
            assert forall|i: int, j: int|
                0 <= i < after.1.len() && 0 <= j < after.1.len() && i != j implies after.1[i]
                != after.1[j] by {
                if i < middle.1.len() && j < middle.1.len() {
                } else if i == middle.1.len() {
                    assert(middle.1.contains(middle.1[j]));
                } else {
                    assert(middle.1.contains(middle.1[i]));
                }
            }
        }
    }
}

pub proof fn lemma_visit_all(
    keys: Seq<ModuleKey>,
    i: int,
    discovered: Discovered,
    versions: Seq<(Text, Text)>,
    selected: Seq<ModuleKey>,
    seen: Seq<ModuleKey>,
    ordered: Seq<ModuleKey>,
    n: nat,
)
    requires
        order_invariant(selected, seen, ordered),
        0 <= i,
    ensures
        ({
            let after = visit_all(keys, i, discovered, versions, selected, seen, ordered, n);
            &&& order_invariant(selected, after.0, after.1)
            &&& order_grows(seen, ordered, after.0, after.1)
            &&& n > 0 ==> forall|j: int|
                i <= j < keys.len() && selected.contains(#[trigger] keys[j]) ==> after.0.contains(
                    keys[j],
                )
            &&& forall|k: ModuleKey| #[trigger] after.1.contains(k) ==> ordered.contains(k)
                || !seen.contains(k)
        }),
    decreases n, 1nat, keys.len() - i,
{
    if i < keys.len() {
        lemma_visit(keys[i], discovered, versions, selected, seen, ordered, n);
        let middle = visit(keys[i], discovered, versions, selected, seen, ordered, n);
        lemma_visit_all(keys, i + 1, discovered, versions, selected, middle.0, middle.1, n);
    }
}

/// The dependency order lists each selected module once, and nothing else.
pub proof fn law_dependency_order(
    discovered: Discovered,
    root_deps: Seq<BazelDepModel>,
    versions: Seq<(Text, Text)>,
    selected: Seq<ModuleKey>,
)
    ensures
        ({
            let ordered = dependency_order(discovered, root_deps, versions, selected);
            &&& ordered.no_duplicates()
            &&& forall|k: ModuleKey| #[trigger] ordered.contains(k) <==> selected.contains(k)
        }),
{
    let n = (selected.len() + 1) as nat;
    let none: Seq<ModuleKey> = seq![];
    let roots = dep_keys(root_deps, versions);
    assert(order_invariant(selected, none, none));
    lemma_visit_all(roots, 0, discovered, versions, selected, none, none, n);
    let first = visit_all(roots, 0, discovered, versions, selected, none, none, n);
    lemma_visit_all(selected, 0, discovered, versions, selected, first.0, first.1, n);
    let last = visit_all(selected, 0, discovered, versions, selected, first.0, first.1, n);
    assert forall|k: ModuleKey| #[trigger] last.1.contains(k) <==> selected.contains(k) by {
        if selected.contains(k) {
            let j = choose|j: int| 0 <= j < selected.len() && selected[j] == k;
            assert(selected.contains(selected[j]));
            assert(last.0.contains(k));
            assert(first.0.contains(k) || last.1.contains(k));
            if first.0.contains(k) {
                assert(none.contains(k) || first.1.contains(k));
                assert(first.1.contains(k));
            }
        }
    }
}

/// The repository name of a module: the built-in ones as they are, others with a
/// `+`, and the version behind it where several versions are selected.
pub open spec fn canonical_name(name: Text, version: Text, multiple: bool) -> Text {
    if name == "bazel_tools"@ {
        "bazel_tools"@
    } else if name == "platforms"@ {
        "platforms"@
    } else if multiple {
        name + "+"@ + version
    } else {
        name + "+"@
    }
}

/// The repository name of a module.
pub fn bzlmod_canonical_repo_name(module_name: &str, version: &str, multiple_versions: bool) -> (r:
    String)
    ensures
        r@ == canonical_name(module_name@, version@, multiple_versions),
{
    if same(module_name, "bazel_tools") {
        "bazel_tools".to_owned()
    } else if same(module_name, "platforms") {
        "platforms".to_owned()
    } else if multiple_versions {
        concat3(module_name, "+", version)
    } else {
        concat(module_name, "+")
    }
}

/// Another version of the module is selected too.
pub open spec fn has_other_version(selected: Seq<ModuleKey>, key: ModuleKey) -> bool {
    exists|j: int|
        0 <= j < selected.len() && (#[trigger] selected[j]).0 == key.0 && selected[j].1 != key.1
}

/// The repository names of the first `i` selected modules.
pub open spec fn canonical_names(selected: Seq<ModuleKey>, i: int) -> Seq<(ModuleKey, Text)>
    decreases i,
{
    if i <= 0 {
        seq![]
    } else {
        let key = selected[i - 1];
        put::<(String, String), Text>(
            canonical_names(selected, i - 1),
            key,
            canonical_name(key.0, key.1, has_other_version(selected, key)),
        )
    }
}

fn other_version_selected(selected: &KeySet<(String, String)>, key: &(String, String)) -> (r: bool)
    ensures
        r == has_other_version(selected.deep_view(), key.deep_view()),
{
    let ghost model = selected.deep_view();
    let mut j: usize = 0;
    while j < selected.items.len()
        invariant
            model == selected.deep_view(),
            0 <= j <= selected.items@.len(),
            forall|k: int|
                0 <= k < j ==> !((#[trigger] model[k]).0 == key.0@ && model[k].1 != key.1@),
        decreases selected.items.len() - j,
    {
        assert(model[j as int] == selected.items@[j as int].deep_view());
        if same(selected.items[j].0.as_str(), key.0.as_str()) && !same(
            selected.items[j].1.as_str(),
            key.1.as_str(),
        ) {
            return true;
        }
        j += 1;
    }
    false
}

/// The repository names of the selected modules.
pub fn bzlmod_canonical_repo_names_by_key(selected_keys: &KeySet<(String, String)>) -> (r: KeyMap<
    (String, String),
    String,
>)
    ensures
        r.deep_view() == canonical_names(
            selected_keys.deep_view(),
            selected_keys.deep_view().len() as int,
        ),
{
    let ghost model = selected_keys.deep_view();
    let mut names: KeyMap<(String, String), String> = KeyMap::new();
    let mut i: usize = 0;
    while i < selected_keys.items.len()
        invariant
            model == selected_keys.deep_view(),
            0 <= i <= selected_keys.items@.len(),
            names.deep_view() =~= canonical_names(model, i as int),
        decreases selected_keys.items.len() - i,
    {
        assert(model[i as int] == selected_keys.items@[i as int].deep_view());
        let key = &selected_keys.items[i];
        let name = bzlmod_canonical_repo_name(
            key.0.as_str(),
            key.1.as_str(),
            other_version_selected(selected_keys, key),
        );
        names.insert(key.duplicate(), name);
        i += 1;
    }
    names
}

/// The message for a selected module without repository name.
pub open spec fn unnamed_message(name: Text, version: Text) -> Text {
    "selected bzlmod module `"@ + name + "@"@ + version
        + "` does not have a canonical repository name"@
}

/// The repository name of a selected module.
pub open spec fn selected_name(names: Seq<(ModuleKey, Text)>, name: Text, version: Text) -> Result<
    Text,
    Text,
> {
    match lookup(names, (name, version)) {
        Some(canonical) => Ok(canonical),
        None => Err(unnamed_message(name, version)),
    }
}

/// The repository name of a selected module.
pub fn bzlmod_selected_canonical_repo_name(
    canonical_repo_names_by_key: &KeyMap<(String, String), String>,
    module_name: &str,
    version: &str,
) -> (r: Result<String, InputError>)
    ensures
        result_view(r) == selected_name(
            canonical_repo_names_by_key.deep_view(),
            module_name@,
            version@,
        ),
{
    match canonical_repo_names_by_key.get(&(module_name.to_owned(), version.to_owned())) {
        Some(name) => Ok(name.clone()),
        None => {
            let mut message = concat3("selected bzlmod module `", module_name, "@");
            message.append(version);
            message.append("` does not have a canonical repository name");
            Err(InputError { message })
        },
    }
}

/// The discovered modules with the built-in tools among them.
pub open spec fn with_builtin(
    discovered: Discovered,
    builtin: DiscoveredBcrModuleModel,
) -> Discovered {
    put::<(String, String), DiscoveredBcrModuleModel>(
        discovered,
        (builtin.dep.name, builtin.dep.version),
        builtin,
    )
}

/// The modules that count: of each the highest version, as far as the root's
/// dependencies and the built-in tools lead to it.
pub open spec fn selection(
    root_deps: Seq<BazelDepModel>,
    builtin: DiscoveredBcrModuleModel,
    discovered: Discovered,
) -> Result<BzlmodSelectionResultModel, Text> {
    let all = with_builtin(discovered, builtin);
    match best_versions(map_keys(all), 0, seq![]) {
        Err(message) => Err(message),
        Ok(versions) => match breadth_first(
            start_keys(root_deps, versions),
            seq![],
            seq![],
            all,
            versions,
        ) {
            Err(message) => Err(message),
            Ok((selected, order)) => Ok(
                BzlmodSelectionResultModel {
                    discovered: all,
                    selected_keys: selected,
                    selected_keys_in_bfs_order: order,
                    selected_keys_in_dependency_order: dependency_order(
                        all,
                        root_deps,
                        versions,
                        selected,
                    ),
                    canonical_repo_names_by_key: canonical_names(selected, selected.len() as int),
                },
            ),
        },
    }
}

/// Selects the modules that count.
pub fn select_bzlmod_modules(
    root_deps: &Vec<BazelDep>,
    builtin_bazel_tools_module: DiscoveredBcrModule,
    discovered: &KeyMap<(String, String), DiscoveredBcrModule>,
) -> (r: Result<BzlmodSelectionResult, InputError>)
    ensures
        result_view(r) == selection(
            root_deps.deep_view(),
            builtin_bazel_tools_module.deep_view(),
            discovered.deep_view(),
        ),
{
    let mut discovered = discovered.duplicate();
    let key = (
        builtin_bazel_tools_module.dep.name.clone(),
        builtin_bazel_tools_module.dep.version.clone(),
    );
    discovered.insert(key, builtin_bazel_tools_module);
    let versions = match select_versions(&discovered) {
        Ok(versions) => versions,
        Err(e) => {
            return Err(e);
        },
    };
    let (selected_keys, selected_keys_in_bfs_order) = match visit_breadth_first(
        root_deps,
        &discovered,
        &versions,
    ) {
        Ok(found) => found,
        Err(e) => {
            return Err(e);
        },
    };
    let selected_keys_in_dependency_order = bzlmod_selected_keys_dependency_first(
        &discovered,
        root_deps,
        &versions,
        &selected_keys,
    );
    let canonical_repo_names_by_key = bzlmod_canonical_repo_names_by_key(&selected_keys);
    Ok(
        BzlmodSelectionResult {
            discovered,
            selected_keys,
            selected_keys_in_bfs_order,
            selected_keys_in_dependency_order,
            canonical_repo_names_by_key,
        },
    )
}

/// The repository of a module is called by its name with a `+`, and with the version behind
/// that where another version is selected too; the built-in modules are called by their
/// names.
pub proof fn law_canonical_name(name: Text, version: Text)
    ensures
        name == "bazel_tools"@ || name == "platforms"@ ==> canonical_name(name, version, false)
            == name && canonical_name(name, version, true) == name,
        name != "bazel_tools"@ && name != "platforms"@ ==> canonical_name(name, version, false)
            == name + "+"@ && canonical_name(name, version, true) == name + "+"@ + version,
{
}

/// The version that is selected of a module is one that is asked for.
pub proof fn law_best_version_is_known(
    keys: Seq<ModuleKey>,
    i: int,
    done: Seq<(Text, Text)>,
    name: Text,
)
    requires
        0 <= i <= keys.len(),
        sorted_items::<String, Text>(done),
    ensures
        best_versions(keys, i, done) matches Ok(found) ==> {
            &&& lookup(found, name) is Some <==> lookup(done, name) is Some || exists|j: int|
                i <= j < keys.len() && (#[trigger] keys[j]).0 == name
            &&& lookup(found, name) is Some ==> lookup(found, name) == lookup(done, name) || exists|
                j: int,
            |
                i <= j < keys.len() && #[trigger] keys[j] == (name, lookup(found, name)->0)
        },
    decreases keys.len() - i,
{
    if i < keys.len() {
        let (own, version) = keys[i];
        let next = put::<String, Text>(done, own, version);
        law_put_sorted::<String, Text>(done, own, version);
        law_lookup_after_put::<String, Text>(done, own, version, name);
        assert(keys[i] == (own, version));
        match lookup(done, own) {
            None => law_best_version_is_known(keys, i + 1, next, name),
            Some(existing) => {
                if let Ok(order) = version_order(version, existing) {
                    if order == Ordering::Greater {
                        law_best_version_is_known(keys, i + 1, next, name);
                    } else {
                        law_best_version_is_known(keys, i + 1, done, name);
                    }
                }
            },
        }
    }
}

} // verus!
