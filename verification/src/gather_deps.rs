//! The dependencies of a target.

use starlark_map::ordered_map::OrderedMap;
use starlark_map::small_map::SmallMap;
use starlark_map::small_set::SmallSet;
use vstd::prelude::*;
use vstd::string::*;
use crate::attrs::{ConfiguredAttr, configured_attr_labels, labels_in};
use crate::dep_maps::{
    DepUse, DepUseModel, added, check_entries, check_get, check_insert, check_items, dep_entries,
    dep_get, dep_insert, dep_items, label_entries, label_insert, label_items, law_lookup_placed,
    new_check_map, new_dep_map, new_label_set, placed,
};
use crate::module::InputError;
use crate::ordered::{Duplicate, OrderedKey, lemma_push_contains, lookup};
use crate::text::{Text, same};
use crate::visibility::{
    Check, CheckVisibility, ErrorsAndIncompatibilities, NodeError, NodeErrorModel, Problems,
};

verus! {

/// How a plugin came to a target: named there, or from a dependency, and then
/// whether it is passed on.
#[derive(Debug, Clone, Copy, PartialEq, Eq, Structural)]
pub enum PluginListElemKind {
    Direct,
    Propagate,
    NoPropagate,
}

impl DeepView for PluginListElemKind {
    type V = PluginListElemKind;

    open spec fn deep_view(&self) -> PluginListElemKind {
        *self
    }
}

impl Duplicate for PluginListElemKind {
    fn duplicate(&self) -> (r: Self) {
        *self
    }
}

/// Plugins as they are noted, in order: the kind, the target, and how it came.
pub type PluginNotes = Seq<(Text, Text, PluginListElemKind)>;

/// What the attributes of a target ask for so far.
pub struct Traversal {
    deps: OrderedMap<String, DepUse>,
    exec_deps: SmallMap<String, CheckVisibility>,
    toolchain_deps: SmallSet<String>,
    plugins: Vec<(String, String, PluginListElemKind)>,
    current_visibility_check: CheckVisibility,
}

/// The model of [`Traversal`].
pub struct TraversalModel {
    pub deps: Seq<(Text, DepUseModel)>,
    pub exec_deps: Seq<(Text, Check)>,
    pub toolchain_deps: Seq<Text>,
    pub plugins: PluginNotes,
    pub check: Check,
}

impl DeepView for Traversal {
    type V = TraversalModel;

    closed spec fn deep_view(&self) -> TraversalModel {
        TraversalModel {
            deps: dep_items(self.deps),
            exec_deps: check_items(self.exec_deps),
            toolchain_deps: label_items(self.toolchain_deps),
            plugins: self.plugins.deep_view(),
            check: self.current_visibility_check.deep_view(),
        }
    }
}

/// The use of a dependency after it was asked for once more.
pub open spec fn used_again(deps: Seq<(Text, DepUseModel)>, dep: Text, check: Check) -> DepUseModel {
    match lookup(deps, dep) {
        Some(used) => DepUseModel {
            plugin_kinds: used.plugin_kinds,
            check: used.check.merged(check),
        },
        None => DepUseModel { plugin_kinds: seq![], check: check.merged(check) },
    }
}

impl TraversalModel {
    /// A dependency is asked for.
    pub open spec fn with_dep(self, dep: Text) -> TraversalModel {
        TraversalModel {
            deps: placed(self.deps, dep, used_again(self.deps, dep, self.check)),
            ..self
        }
    }

    /// A dependency is asked for with plugins of some kinds.
    pub open spec fn with_plugin_kinds(self, dep: Text, kinds: Seq<(Text, bool)>) -> TraversalModel {
        let used = used_again(self.deps, dep, self.check);
        TraversalModel {
            deps: placed(
                self.deps,
                dep,
                DepUseModel {
                    plugin_kinds: if used.plugin_kinds.contains(kinds) {
                        used.plugin_kinds
                    } else {
                        used.plugin_kinds.push(kinds)
                    },
                    ..used
                },
            ),
            ..self
        }
    }

    /// A dependency for execution is asked for.
    pub open spec fn with_exec_dep(self, dep: Text) -> TraversalModel {
        TraversalModel {
            exec_deps: placed(
                self.exec_deps,
                dep,
                match lookup(self.exec_deps, dep) {
                    Some(check) => check.merged(self.check),
                    None => self.check.merged(self.check),
                },
            ),
            ..self
        }
    }

    /// The dependencies from `i` on are asked for.
    pub open spec fn with_deps(self, deps: Seq<Text>, i: int) -> TraversalModel
        decreases deps.len() - i,
    {
        if i < 0 || i >= deps.len() {
            self
        } else {
            self.with_dep(deps[i]).with_deps(deps, i + 1)
        }
    }
}

fn kinds_known(sets: &Vec<Vec<(String, bool)>>, kinds: &Vec<(String, bool)>) -> (r: bool)
    ensures
        r == sets.deep_view().contains(kinds.deep_view()),
{
    let mut i: usize = 0;
    while i < sets.len()
        invariant
            0 <= i <= sets@.len(),
            forall|j: int| 0 <= j < i ==> #[trigger] sets.deep_view()[j] != kinds.deep_view(),
        decreases sets.len() - i,
    {
        assert(sets.deep_view()[i as int] == sets@[i as int].deep_view());
        if sets[i].same_key(kinds) {
            return true;
        }
        i += 1;
    }
    false
}

impl Traversal {
    /// Nothing is asked for.
    pub fn new() -> (r: Self)
        ensures
            r.deep_view() == (TraversalModel {
                deps: seq![],
                exec_deps: seq![],
                toolchain_deps: seq![],
                plugins: seq![],
                check: Check::Yes,
            }),
    {
        let r = Traversal {
            deps: new_dep_map(),
            exec_deps: new_check_map(),
            toolchain_deps: new_label_set(),
            plugins: Vec::new(),
            current_visibility_check: CheckVisibility::Yes,
        };
        assert(r.deep_view().plugins =~= seq![]);
        r
    }

    /// From here on dependencies are checked in that way.
    pub fn set_visibility_check(&mut self, check: CheckVisibility)
        ensures
            final(self).deep_view() == (TraversalModel {
                check: check.deep_view(),
                ..old(self).deep_view()
            }),
    {
        self.current_visibility_check = check;
    }

    /// The use of a dependency after it was asked for once more.
    fn next_use(&self, dep: &str) -> (r: DepUse)
        ensures
            r.deep_view() == used_again(self.deep_view().deps, dep@, self.deep_view().check),
    {
        match dep_get(&self.deps, dep) {
            Some(used) => {
                let mut check = used.check.duplicate();
                check.merge(&self.current_visibility_check);
                DepUse { plugin_kinds: used.plugin_kinds.duplicate(), check }
            },
            None => {
                let mut check = self.current_visibility_check.duplicate();
                check.merge(&self.current_visibility_check);
                let plugin_kinds: Vec<Vec<(String, bool)>> = Vec::new();
                assert(plugin_kinds.deep_view() =~= seq![]);
                DepUse { plugin_kinds, check }
            },
        }
    }

    /// A dependency is asked for.
    pub fn dep(&mut self, dep: &str)
        ensures
            final(self).deep_view() == old(self).deep_view().with_dep(dep@),
    {
        let used = self.next_use(dep);
        dep_insert(&mut self.deps, dep.to_owned(), used);
    }

    /// A dependency is asked for with plugins of some kinds.
    pub fn dep_with_plugins(&mut self, dep: &str, plugin_kinds: Vec<(String, bool)>)
        ensures
            final(self).deep_view() == old(self).deep_view().with_plugin_kinds(
                dep@,
                plugin_kinds.deep_view(),
            ),
    {
        let mut used = self.next_use(dep);
        if !kinds_known(&used.plugin_kinds, &plugin_kinds) {
            let ghost before = used.plugin_kinds.deep_view();
            let ghost kinds = plugin_kinds.deep_view();
            used.plugin_kinds.push(plugin_kinds);
            assert(used.plugin_kinds.deep_view() =~= before.push(kinds));
        }
        dep_insert(&mut self.deps, dep.to_owned(), used);
    }

    /// A dependency for execution is asked for.
    pub fn exec_dep(&mut self, dep: &str)
        ensures
            final(self).deep_view() == old(self).deep_view().with_exec_dep(dep@),
    {
        let mut check = match check_get(&self.exec_deps, dep) {
            Some(check) => check.duplicate(),
            None => self.current_visibility_check.duplicate(),
        };
        check.merge(&self.current_visibility_check);
        check_insert(&mut self.exec_deps, dep.to_owned(), check);
    }

    /// A toolchain is asked for.
    pub fn toolchain_dep(&mut self, dep: &str)
        ensures
            final(self).deep_view() == (TraversalModel {
                toolchain_deps: added(old(self).deep_view().toolchain_deps, dep@),
                ..old(self).deep_view()
            }),
    {
        label_insert(&mut self.toolchain_deps, dep.to_owned());
    }

    /// A plugin is named.
    pub fn plugin_dep(&mut self, dep: &str, kind: &str)
        ensures
            final(self).deep_view() == (TraversalModel {
                plugins: old(self).deep_view().plugins.push(
                    (kind@, dep@, PluginListElemKind::Direct),
                ),
                ..old(self).deep_view()
            }),
    {
        let ghost before = self.plugins.deep_view();
        self.plugins.push((kind.to_owned(), dep.to_owned(), PluginListElemKind::Direct));
        assert(self.plugins.deep_view() =~= before.push(
            (kind@, dep@, PluginListElemKind::Direct),
        ));
    }

    /// The labels anywhere in an attribute are asked for.
    pub fn insert_bazel_make_variable_label_deps(&mut self, attr: &ConfiguredAttr)
        ensures
            final(self).deep_view() == old(self).deep_view().with_deps(labels_in(*attr), 0),
    {
        let labels = configured_attr_labels(attr);
        let ghost model = labels.deep_view();
        let ghost first = self.deep_view();
        let mut i: usize = 0;
        while i < labels.len()
            invariant
                model == labels.deep_view(),
                0 <= i <= labels@.len(),
                first.with_deps(model, 0) == self.deep_view().with_deps(model, i as int),
            decreases labels.len() - i,
        {
            assert(model[i as int] == labels@[i as int]@);
            self.dep(labels[i].as_str());
            i += 1;
        }
    }
}

/// The plugins of a dependency that come on to the target: for each kind that
/// one of the uses asks for, those that are not kept back, to be passed on where
/// one of the uses says so.
pub open spec fn kind_answer(sets: Seq<Seq<(Text, bool)>>, kind: Text) -> Option<bool>
    decreases sets.len(),
{
    if sets.len() == 0 {
        None
    } else {
        let before = kind_answer(sets.drop_last(), kind);
        match lookup(sets.last(), kind) {
            Some(yes) => Some(yes || before == Some(true)),
            None => before,
        }
    }
}

/// The plugins of one kind that are not kept back.
pub open spec fn passed_on(
    plugins: Seq<(Text, PluginListElemKind)>,
    kind: Text,
    how: PluginListElemKind,
) -> PluginNotes
    decreases plugins.len(),
{
    if plugins.len() == 0 {
        seq![]
    } else if plugins.last().1 == PluginListElemKind::NoPropagate {
        passed_on(plugins.drop_last(), kind, how)
    } else {
        passed_on(plugins.drop_last(), kind, how).push((kind, plugins.last().0, how))
    }
}

/// The plugins of a dependency that come on to the target.
pub open spec fn propagated(
    sets: Seq<Seq<(Text, bool)>>,
    lists: Seq<(Text, Seq<(Text, PluginListElemKind)>)>,
) -> PluginNotes
    decreases lists.len(),
{
    if lists.len() == 0 {
        seq![]
    } else {
        let before = propagated(sets, lists.drop_last());
        let (kind, plugins) = lists.last();
        match kind_answer(sets, kind) {
            None => before,
            Some(yes) => before + passed_on(
                plugins,
                kind,
                if yes {
                    PluginListElemKind::Propagate
                } else {
                    PluginListElemKind::NoPropagate
                },
            ),
        }
    }
}

fn set_get(set: &Vec<(String, bool)>, kind: &str) -> (r: Option<bool>)
    ensures
        r == lookup(set.deep_view(), kind@),
{
    let ghost model = set.deep_view();
    let mut i: usize = 0;
    assert(model.skip(0) =~= model);
    while i < set.len()
        invariant
            model == set.deep_view(),
            0 <= i <= set@.len(),
            lookup(model, kind@) == lookup(model.skip(i as int), kind@),
        decreases set.len() - i,
    {
        assert(model[i as int] == (set@[i as int].0@, set@[i as int].1));
        assert(model.skip(i as int)[0] == model[i as int]);
        assert(model.skip(i as int).skip(1) =~= model.skip(i + 1));
        if same(set[i].0.as_str(), kind) {
            return Some(set[i].1);
        }
        i += 1;
    }
    None
}

fn kind_answer_of(sets: &Vec<Vec<(String, bool)>>, kind: &str) -> (r: Option<bool>)
    ensures
        r == kind_answer(sets.deep_view(), kind@),
{
    let ghost model = sets.deep_view();
    let mut answer: Option<bool> = None;
    let mut i: usize = 0;
    while i < sets.len()
        invariant
            model == sets.deep_view(),
            0 <= i <= sets@.len(),
            answer == kind_answer(model.take(i as int), kind@),
        decreases sets.len() - i,
    {
        proof {
            let t = model.take(i + 1);
            assert(t.drop_last() =~= model.take(i as int));
            assert(t.last() == sets@[i as int].deep_view());
        }
        match set_get(&sets[i], kind) {
            Some(yes) => {
                answer = Some(
                    yes || match answer {
                        Some(before) => before,
                        None => false,
                    },
                );
            },
            None => {},
        }
        i += 1;
    }
    assert(model.take(i as int) =~= model);
    answer
}

/// Notes the plugins of a dependency that come on to the target.
pub fn propagate_plugins(
    notes: &mut Vec<(String, String, PluginListElemKind)>,
    plugin_kind_sets: &Vec<Vec<(String, bool)>>,
    lists: &Vec<(String, Vec<(String, PluginListElemKind)>)>,
)
    ensures
        final(notes).deep_view() == old(notes).deep_view() + propagated(
            plugin_kind_sets.deep_view(),
            lists.deep_view(),
        ),
{
    let ghost first = notes.deep_view();
    let ghost sets = plugin_kind_sets.deep_view();
    let ghost model = lists.deep_view();
    let mut i: usize = 0;
    assert(first + seq![] =~= first);
    while i < lists.len()
        invariant
            sets == plugin_kind_sets.deep_view(),
            model == lists.deep_view(),
            0 <= i <= lists@.len(),
            notes.deep_view() =~= first + propagated(sets, model.take(i as int)),
        decreases lists.len() - i,
    {
        let ghost before = notes.deep_view();
        let kind = lists[i].0.as_str();
        let plugins = &lists[i].1;
        let ghost all = plugins.deep_view();
        proof {
            let t = model.take(i + 1);
            assert(t.drop_last() =~= model.take(i as int));
            assert(t.last() == lists@[i as int].deep_view());
        }
        match kind_answer_of(plugin_kind_sets, kind) {
            None => {},
            Some(yes) => {
                let how = if yes {
                    PluginListElemKind::Propagate
                } else {
                    PluginListElemKind::NoPropagate
                };
                let mut j: usize = 0;
                assert(before + seq![] =~= before);
                while j < plugins.len()
                    invariant
                        all == plugins.deep_view(),
                        0 <= j <= plugins@.len(),
                        notes.deep_view() =~= before + passed_on(all.take(j as int), kind@, how),
                    decreases plugins.len() - j,
                {
                    let ghost so_far = notes.deep_view();
                    proof {
                        let t = all.take(j + 1);
                        assert(t.drop_last() =~= all.take(j as int));
                        assert(t.last() == plugins@[j as int].deep_view());
                    }
                    if plugins[j].1 != PluginListElemKind::NoPropagate {
                        notes.push((kind.to_owned(), plugins[j].0.clone(), how));
                        assert(notes.deep_view() =~= so_far.push(
                            (kind@, plugins@[j as int].0@, how),
                        ));
                    }
                    j += 1;
                }
                assert(all.take(j as int) =~= all);
            },
        }
        i += 1;
    }
    assert(model.take(i as int) =~= model);
}

/// The dependencies for execution with those of the labels from `i` on that are
/// not there, whose visibility is not checked.
pub open spec fn with_unchecked(deps: Seq<(Text, Check)>, labels: Seq<Text>, i: int) -> Seq<
    (Text, Check),
>
    decreases labels.len() - i,
{
    if i < 0 || i >= labels.len() {
        deps
    } else if lookup(deps, labels[i]) is Some {
        with_unchecked(deps, labels, i + 1)
    } else {
        with_unchecked(placed(deps, labels[i], Check::No), labels, i + 1)
    }
}

/// What is known of a dependency whose visibility is checked: its label apart
/// from any configuration, and whether it is visible; or why it could not be
/// looked up.
pub enum DepAnswer {
    Known { unconfigured: String, visible: Result<bool, InputError> },
    LookupFailed(InputError),
}

/// What checking a dependency comes to: whether it stays, and the problems then.
pub open spec fn checked_dep(answer: DepAnswer, target: Text, problems: Problems) -> Result<
    (bool, Problems),
    Text,
> {
    match answer {
        DepAnswer::LookupFailed(e) => Err(e.deep_view()),
        DepAnswer::Known { unconfigured, visible } => Ok(
            match visible {
                Ok(true) => (true, problems),
                Ok(false) => (
                    false,
                    problems.with_err(NodeErrorModel::NotVisibleTo(unconfigured@, target)),
                ),
                Err(e) => (false, problems.with_err(NodeErrorModel::Other(e.deep_view()))),
            },
        ),
    }
}

/// The dependencies for execution that stay, from `i` on, behind those before,
/// and the problems: what needs no check stays, and what passes its check needs
/// none any more.
pub open spec fn exec_checked(
    deps: Seq<(Text, Check)>,
    answers: Seq<DepAnswer>,
    target: Text,
    i: int,
    done: Seq<(Text, Check)>,
    problems: Problems,
) -> Result<(Seq<(Text, Check)>, Problems), Text>
    decreases deps.len() - i,
{
    if i < 0 || i >= deps.len() {
        Ok((done, problems))
    } else if deps[i].1 is No {
        exec_checked(
            deps,
            answers,
            target,
            i + 1,
            placed(done, deps[i].0, Check::No),
            problems,
        )
    } else {
        match checked_dep(answers[i], target, problems) {
            Err(e) => Err(e),
            Ok((stays, problems)) => exec_checked(
                deps,
                answers,
                target,
                i + 1,
                if stays {
                    placed(done, deps[i].0, Check::No)
                } else {
                    done
                },
                problems,
            ),
        }
    }
}

/// The toolchains that stay, from `i` on, behind those before, and the problems.
pub open spec fn toolchains_checked(
    deps: Seq<Text>,
    answers: Seq<DepAnswer>,
    target: Text,
    i: int,
    done: Seq<Text>,
    problems: Problems,
) -> Result<(Seq<Text>, Problems), Text>
    decreases deps.len() - i,
{
    if i < 0 || i >= deps.len() {
        Ok((done, problems))
    } else {
        match checked_dep(answers[i], target, problems) {
            Err(e) => Err(e),
            Ok((stays, problems)) => toolchains_checked(
                deps,
                answers,
                target,
                i + 1,
                if stays {
                    added(done, deps[i])
                } else {
                    done
                },
                problems,
            ),
        }
    }
}

/// The problems that checking the dependencies for execution from `i` on leaves:
/// those noted up to the end, or to the first that could not be looked up.
pub open spec fn exec_problems(
    deps: Seq<(Text, Check)>,
    answers: Seq<DepAnswer>,
    target: Text,
    i: int,
    problems: Problems,
) -> Problems
    decreases deps.len() - i,
{
    if i < 0 || i >= deps.len() {
        problems
    } else if deps[i].1 is No {
        exec_problems(deps, answers, target, i + 1, problems)
    } else {
        match checked_dep(answers[i], target, problems) {
            Err(_) => problems,
            Ok((_, next)) => exec_problems(deps, answers, target, i + 1, next),
        }
    }
}

/// The problems that checking the toolchains from `i` on leaves.
pub open spec fn toolchain_problems(
    deps: Seq<Text>,
    answers: Seq<DepAnswer>,
    target: Text,
    i: int,
    problems: Problems,
) -> Problems
    decreases deps.len() - i,
{
    if i < 0 || i >= deps.len() {
        problems
    } else {
        match checked_dep(answers[i], target, problems) {
            Err(_) => problems,
            Ok((_, next)) => toolchain_problems(deps, answers, target, i + 1, next),
        }
    }
}

/// The errors of before stand in front of the new ones, and the reasons are the
/// same.
pub open spec fn errors_appended(before: Problems, after: Problems) -> bool {
    before.errs.is_prefix_of(after.errs) && before.incompats == after.incompats
}

proof fn lemma_checked_appends(
    before: Problems,
    answer: DepAnswer,
    target: Text,
    problems: Problems,
)
    requires
        errors_appended(before, problems),
    ensures
        checked_dep(answer, target, problems) matches Ok((_, next)) ==> errors_appended(
            before,
            next,
        ),
{
    if let Ok((_, next)) = checked_dep(answer, target, problems) {
        assert(before.errs =~= next.errs.subrange(0, before.errs.len() as int)) by {
            assert(before.errs == problems.errs.subrange(0, before.errs.len() as int));
        }
    }
}

fn check_dep(
    answer: &DepAnswer,
    target_label: &str,
    problems: &mut ErrorsAndIncompatibilities,
) -> (r: Result<bool, InputError>)
    ensures
        checked_dep(*answer, target_label@, old(problems).deep_view()) == (match r {
            Ok(stays) => Ok::<(bool, Problems), Text>((stays, final(problems).deep_view())),
            Err(e) => Err(e.deep_view()),
        }),
        r is Err ==> final(problems).deep_view() == old(problems).deep_view(),
{
    match answer {
        DepAnswer::LookupFailed(e) => Err(e.duplicate()),
        DepAnswer::Known { unconfigured, visible } => match visible {
            Ok(true) => Ok(true),
            Ok(false) => {
                problems.push_err(
                    NodeError::NotVisibleTo(unconfigured.clone(), target_label.to_owned()),
                );
                Ok(false)
            },
            Err(e) => {
                problems.push_err(NodeError::Other(e.duplicate()));
                Ok(false)
            },
        },
    }
}

/// What was gathered for a target apart from the dependencies themselves.
pub struct GatheredDeps {
    exec_deps: SmallMap<String, CheckVisibility>,
    toolchain_deps: SmallSet<String>,
}

impl GatheredDeps {
    /// The dependencies for execution, in order.
    pub closed spec fn exec_list(&self) -> Seq<(Text, Check)> {
        check_items(self.exec_deps)
    }

    /// The toolchains, in order.
    pub closed spec fn toolchain_list(&self) -> Seq<Text> {
        label_items(self.toolchain_deps)
    }

    /// The dependencies for execution, in order.
    pub fn exec_deps(&self) -> (r: Vec<(&String, &CheckVisibility)>)
        ensures
            r.deep_view() == self.exec_list(),
    {
        check_entries(&self.exec_deps)
    }

    /// The toolchains, in order.
    pub fn toolchain_deps(&self) -> (r: Vec<&String>)
        ensures
            r.deep_view() == self.toolchain_list(),
    {
        label_entries(&self.toolchain_deps)
    }
}

impl Traversal {
    /// The dependencies and their uses, in order.
    pub fn deps(&self) -> (r: Vec<(&String, &DepUse)>)
        ensures
            r.deep_view() == self.deep_view().deps,
    {
        dep_entries(&self.deps)
    }

    /// The dependencies for execution, in order.
    pub fn exec_deps(&self) -> (r: Vec<(&String, &CheckVisibility)>)
        ensures
            r.deep_view() == self.deep_view().exec_deps,
    {
        check_entries(&self.exec_deps)
    }

    /// The toolchains, in order.
    pub fn toolchain_deps(&self) -> (r: Vec<&String>)
        ensures
            r.deep_view() == self.deep_view().toolchain_deps,
    {
        label_entries(&self.toolchain_deps)
    }

    /// The plugins that were noted, in order.
    pub fn plugins(&self) -> (r: &Vec<(String, String, PluginListElemKind)>)
        ensures
            r.deep_view() == self.deep_view().plugins,
    {
        &self.plugins
    }

    /// Plugins that the target uses become dependencies for execution, whose
    /// visibility is not checked.
    pub fn add_plugin_exec_deps(&mut self, labels: &Vec<String>)
        ensures
            final(self).deep_view() == (TraversalModel {
                exec_deps: with_unchecked(
                    old(self).deep_view().exec_deps,
                    labels.deep_view(),
                    0,
                ),
                ..old(self).deep_view()
            }),
    {
        let ghost first = self.deep_view();
        let ghost model = labels.deep_view();
        let mut i: usize = 0;
        while i < labels.len()
            invariant
                model == labels.deep_view(),
                0 <= i <= labels@.len(),
                with_unchecked(first.exec_deps, model, 0) == with_unchecked(
                    self.deep_view().exec_deps,
                    model,
                    i as int,
                ),
                self.deep_view() == (TraversalModel {
                    exec_deps: self.deep_view().exec_deps,
                    ..first
                }),
            decreases labels.len() - i,
        {
            assert(model[i as int] == labels@[i as int]@);
            if check_get(&self.exec_deps, labels[i].as_str()).is_none() {
                check_insert(&mut self.exec_deps, labels[i].clone(), CheckVisibility::No);
            }
            i += 1;
        }
    }

    /// The dependencies for execution that stay once their visibility is
    /// checked. The answers are for the dependencies in order.
    fn precheck_exec_dep_visibility(
        &self,
        target_label: &str,
        answers: &Vec<DepAnswer>,
        problems: &mut ErrorsAndIncompatibilities,
    ) -> (r: Result<SmallMap<String, CheckVisibility>, InputError>)
        requires
            answers@.len() == self.deep_view().exec_deps.len(),
        ensures
            exec_checked(
                self.deep_view().exec_deps,
                answers@,
                target_label@,
                0,
                seq![],
                old(problems).deep_view(),
            ) == (match r {
                Ok(deps) => Ok::<(Seq<(Text, Check)>, Problems), Text>(
                    (check_items(deps), final(problems).deep_view()),
                ),
                Err(e) => Err(e.deep_view()),
            }),
            final(problems).deep_view() == exec_problems(
                self.deep_view().exec_deps,
                answers@,
                target_label@,
                0,
                old(problems).deep_view(),
            ),
            errors_appended(old(problems).deep_view(), final(problems).deep_view()),
    {
        let entries = check_entries(&self.exec_deps);
        let ghost model = entries.deep_view();
        let ghost whole = exec_checked(
            model,
            answers@,
            target_label@,
            0,
            seq![],
            problems.deep_view(),
        );
        let ghost before = problems.deep_view();
        let mut done = new_check_map();
        let mut i: usize = 0;
        while i < entries.len()
            invariant
                model == entries.deep_view(),
                model == self.deep_view().exec_deps,
                answers@.len() == entries@.len(),
                before == old(problems).deep_view(),
                0 <= i <= entries@.len(),
                exec_problems(model, answers@, target_label@, 0, before) == exec_problems(
                    model,
                    answers@,
                    target_label@,
                    i as int,
                    problems.deep_view(),
                ),
                errors_appended(before, problems.deep_view()),
                whole == exec_checked(model, answers@, target_label@, 0, seq![], before),
                whole == exec_checked(
                    model,
                    answers@,
                    target_label@,
                    i as int,
                    check_items(done),
                    problems.deep_view(),
                ),
            decreases entries.len() - i,
        {
            assert(model[i as int] == (entries@[i as int].0@, entries@[i as int].1.deep_view()));
            proof {
                lemma_checked_appends(
                    before,
                    answers@[i as int],
                    target_label@,
                    problems.deep_view(),
                );
            }
            let stays = match entries[i].1 {
                CheckVisibility::No => true,
                _ => match check_dep(&answers[i], target_label, problems) {
                    Ok(stays) => stays,
                    Err(e) => {
                        return Err(e);
                    },
                },
            };
            if stays {
                check_insert(&mut done, entries[i].0.clone(), CheckVisibility::No);
            }
            i += 1;
        }
        Ok(done)
    }

    /// The toolchains that stay once their visibility is checked. The answers
    /// are for the toolchains in order.
    fn precheck_toolchain_dep_visibility(
        &self,
        target_label: &str,
        answers: &Vec<DepAnswer>,
        problems: &mut ErrorsAndIncompatibilities,
    ) -> (r: Result<SmallSet<String>, InputError>)
        requires
            answers@.len() == self.deep_view().toolchain_deps.len(),
        ensures
            toolchains_checked(
                self.deep_view().toolchain_deps,
                answers@,
                target_label@,
                0,
                seq![],
                old(problems).deep_view(),
            ) == (match r {
                Ok(deps) => Ok::<(Seq<Text>, Problems), Text>(
                    (label_items(deps), final(problems).deep_view()),
                ),
                Err(e) => Err(e.deep_view()),
            }),
            final(problems).deep_view() == toolchain_problems(
                self.deep_view().toolchain_deps,
                answers@,
                target_label@,
                0,
                old(problems).deep_view(),
            ),
            errors_appended(old(problems).deep_view(), final(problems).deep_view()),
    {
        let entries = label_entries(&self.toolchain_deps);
        let ghost model = entries.deep_view();
        let ghost before = problems.deep_view();
        let ghost whole = toolchains_checked(
            model,
            answers@,
            target_label@,
            0,
            seq![],
            before,
        );
        let mut done = new_label_set();
        let mut i: usize = 0;
        while i < entries.len()
            invariant
                model == entries.deep_view(),
                model == self.deep_view().toolchain_deps,
                answers@.len() == entries@.len(),
                before == old(problems).deep_view(),
                0 <= i <= entries@.len(),
                toolchain_problems(model, answers@, target_label@, 0, before)
                    == toolchain_problems(
                    model,
                    answers@,
                    target_label@,
                    i as int,
                    problems.deep_view(),
                ),
                errors_appended(before, problems.deep_view()),
                whole == toolchains_checked(model, answers@, target_label@, 0, seq![], before),
                whole == toolchains_checked(
                    model,
                    answers@,
                    target_label@,
                    i as int,
                    label_items(done),
                    problems.deep_view(),
                ),
            decreases entries.len() - i,
        {
            assert(model[i as int] == entries@[i as int]@);
            proof {
                lemma_checked_appends(
                    before,
                    answers@[i as int],
                    target_label@,
                    problems.deep_view(),
                );
            }
            match check_dep(&answers[i], target_label, problems) {
                Ok(stays) => {
                    if stays {
                        label_insert(&mut done, entries[i].clone());
                    }
                },
                Err(e) => {
                    return Err(e);
                },
            }
            i += 1;
        }
        Ok(done)
    }

    /// What stays of the dependencies for execution and of the toolchains once
    /// their visibility is checked. The answers are for each of them in order.
    pub fn check_visibility(
        &self,
        target_label: &str,
        exec_answers: &Vec<DepAnswer>,
        toolchain_answers: &Vec<DepAnswer>,
        problems: &mut ErrorsAndIncompatibilities,
    ) -> (r: Result<GatheredDeps, InputError>)
        requires
            exec_answers@.len() == self.deep_view().exec_deps.len(),
            toolchain_answers@.len() == self.deep_view().toolchain_deps.len(),
        ensures
            match exec_checked(
                self.deep_view().exec_deps,
                exec_answers@,
                target_label@,
                0,
                seq![],
                old(problems).deep_view(),
            ) {
                Err(message) => r matches Err(e) && e.deep_view() == message,
                Ok((exec_deps, noted)) => match toolchains_checked(
                    self.deep_view().toolchain_deps,
                    toolchain_answers@,
                    target_label@,
                    0,
                    seq![],
                    noted,
                ) {
                    Err(message) => r matches Err(e) && e.deep_view() == message,
                    Ok((toolchain_deps, all)) => r matches Ok(gathered) && gathered.exec_list()
                        == exec_deps && gathered.toolchain_list() == toolchain_deps
                        && final(problems).deep_view() == all,
                },
            },
            ({
                let asked = self.deep_view();
                let before = old(problems).deep_view();
                let noted = exec_problems(
                    asked.exec_deps,
                    exec_answers@,
                    target_label@,
                    0,
                    before,
                );
                final(problems).deep_view() == (if exec_checked(
                    asked.exec_deps,
                    exec_answers@,
                    target_label@,
                    0,
                    seq![],
                    before,
                ) is Err {
                    noted
                } else {
                    toolchain_problems(
                        asked.toolchain_deps,
                        toolchain_answers@,
                        target_label@,
                        0,
                        noted,
                    )
                })
            }),
            errors_appended(old(problems).deep_view(), final(problems).deep_view()),
    {
        let exec_deps = match self.precheck_exec_dep_visibility(
            target_label,
            exec_answers,
            problems,
        ) {
            Ok(deps) => deps,
            Err(e) => {
                return Err(e);
            },
        };
        let ghost noted = problems.deep_view();
        proof {
            let before = old(problems).deep_view();
            assert(before.errs == noted.errs.subrange(0, before.errs.len() as int));
            assert forall|later: Problems| #[trigger] errors_appended(
                noted,
                later,
            ) implies errors_appended(before, later) by {
                assert(noted.errs == later.errs.subrange(0, noted.errs.len() as int));
                assert(before.errs =~= later.errs.subrange(0, before.errs.len() as int));
            }
        }
        match self.precheck_toolchain_dep_visibility(target_label, toolchain_answers, problems) {
            Ok(toolchain_deps) => Ok(GatheredDeps { exec_deps, toolchain_deps }),
            Err(e) => Err(e),
        }
    }
}

/// What is known of a plugin: whether its rule is one for toolchains, and
/// whether it is visible; or why it could not be looked up.
pub enum PluginAnswer {
    Known { is_toolchain_rule: bool, visible: Result<bool, InputError> },
    LookupFailed(InputError),
}

/// Why a plugin cannot be used.
#[derive(Debug, PartialEq, Eq)]
pub enum PluginDepError {
    IsToolchainRule(String),
    NotVisibleTo(String, String),
    Other(InputError),
}

/// The model of [`PluginDepError`].
pub enum PluginProblem {
    IsToolchainRule(Text),
    NotVisibleTo(Text, Text),
    Other(Text),
}

impl DeepView for PluginDepError {
    type V = PluginProblem;

    open spec fn deep_view(&self) -> PluginProblem {
        match self {
            PluginDepError::IsToolchainRule(dep) => PluginProblem::IsToolchainRule(dep@),
            PluginDepError::NotVisibleTo(dep, target) => PluginProblem::NotVisibleTo(dep@, target@),
            PluginDepError::Other(e) => PluginProblem::Other(e.deep_view()),
        }
    }
}

/// The first of the plugins from `i` on that are named by the target itself and
/// cannot be used.
pub open spec fn plugin_problem(
    plugins: PluginNotes,
    answers: Seq<PluginAnswer>,
    target: Text,
    i: int,
) -> Option<PluginProblem>
    decreases plugins.len() - i,
{
    if i < 0 || i >= plugins.len() {
        None
    } else if plugins[i].2 != PluginListElemKind::Direct {
        plugin_problem(plugins, answers, target, i + 1)
    } else {
        match answers[i] {
            PluginAnswer::LookupFailed(e) => Some(PluginProblem::Other(e.deep_view())),
            PluginAnswer::Known { is_toolchain_rule, visible } => if is_toolchain_rule {
                Some(PluginProblem::IsToolchainRule(plugins[i].1))
            } else {
                match visible {
                    Err(e) => Some(PluginProblem::Other(e.deep_view())),
                    Ok(false) => Some(PluginProblem::NotVisibleTo(plugins[i].1, target)),
                    Ok(true) => plugin_problem(plugins, answers, target, i + 1),
                }
            },
        }
    }
}

/// Checks the plugins that the target itself names. The answers are for the
/// plugins in order.
pub fn check_plugin_deps(
    target_label: &str,
    plugins: &Vec<(String, String, PluginListElemKind)>,
    answers: &Vec<PluginAnswer>,
) -> (r: Result<(), PluginDepError>)
    requires
        answers@.len() == plugins@.len(),
    ensures
        match plugin_problem(plugins.deep_view(), answers@, target_label@, 0) {
            None => r is Ok,
            Some(problem) => r matches Err(e) && e.deep_view() == problem,
        },
{
    let ghost model = plugins.deep_view();
    let ghost whole = plugin_problem(model, answers@, target_label@, 0);
    let mut i: usize = 0;
    while i < plugins.len()
        invariant
            model == plugins.deep_view(),
            answers@.len() == plugins@.len(),
            0 <= i <= plugins@.len(),
            whole == plugin_problem(model, answers@, target_label@, 0),
            whole == plugin_problem(model, answers@, target_label@, i as int),
        decreases plugins.len() - i,
    {
        assert(model[i as int] == plugins@[i as int].deep_view());
        if plugins[i].2 == PluginListElemKind::Direct {
            match &answers[i] {
                PluginAnswer::LookupFailed(e) => {
                    return Err(PluginDepError::Other(e.duplicate()));
                },
                PluginAnswer::Known { is_toolchain_rule, visible } => {
                    if *is_toolchain_rule {
                        return Err(PluginDepError::IsToolchainRule(plugins[i].1.clone()));
                    }
                    match visible {
                        Err(e) => {
                            return Err(PluginDepError::Other(e.duplicate()));
                        },
                        Ok(false) => {
                            return Err(
                                PluginDepError::NotVisibleTo(
                                    plugins[i].1.clone(),
                                    target_label.to_owned(),
                                ),
                            );
                        },
                        Ok(true) => {},
                    }
                },
            }
        }
        i += 1;
    }
    Ok(())
}

/// The answer about a dependency lets it stay.
pub open spec fn lets_stay(check: Check, answer: DepAnswer) -> bool {
    check is No || (answer matches DepAnswer::Known { visible, .. } && visible == Ok::<
        bool,
        InputError,
    >(true))
}

proof fn lemma_exec_checked(
    deps: Seq<(Text, Check)>,
    answers: Seq<DepAnswer>,
    target: Text,
    i: int,
    done: Seq<(Text, Check)>,
    problems: Problems,
    name: Text,
)
    requires
        0 <= i <= deps.len(),
        answers.len() == deps.len(),
    ensures
        exec_checked(deps, answers, target, i, done, problems) matches Ok((out, after)) ==> {
            &&& lookup(out, name) is Some <==> lookup(done, name) is Some || exists|j: int|
                i <= j < deps.len() && (#[trigger] deps[j]).0 == name && lets_stay(
                    deps[j].1,
                    answers[j],
                )
            &&& problems.errs.len() <= after.errs.len()
            &&& after.errs.len() == problems.errs.len() <==> forall|j: int|
                i <= j < deps.len() ==> lets_stay((#[trigger] deps[j]).1, answers[j])
        },
    decreases deps.len() - i,
{
    if i < deps.len() {
        let kept = placed(done, deps[i].0, Check::No);
        law_lookup_placed(done, deps[i].0, Check::No, name);
        if deps[i].1 is No {
            lemma_exec_checked(deps, answers, target, i + 1, kept, problems, name);
        } else if let Ok((stays, next)) = checked_dep(answers[i], target, problems) {
            lemma_exec_checked(
                deps,
                answers,
                target,
                i + 1,
                if stays {
                    kept
                } else {
                    done
                },
                next,
                name,
            );
        }
    }
}

/// A dependency for execution stays exactly where it is not checked or was found to be
/// visible, and there are new errors exactly where one does not stay.
pub proof fn law_exec_deps_checked(
    deps: Seq<(Text, Check)>,
    answers: Seq<DepAnswer>,
    target: Text,
    problems: Problems,
    name: Text,
)
    requires
        answers.len() == deps.len(),
    ensures
        exec_checked(deps, answers, target, 0, seq![], problems) matches Ok((out, after)) ==> {
            &&& lookup(out, name) is Some <==> exists|j: int|
                0 <= j < deps.len() && (#[trigger] deps[j]).0 == name && lets_stay(
                    deps[j].1,
                    answers[j],
                )
            &&& after.errs.len() == problems.errs.len() <==> forall|j: int|
                0 <= j < deps.len() ==> lets_stay((#[trigger] deps[j]).1, answers[j])
        },
{
    lemma_exec_checked(deps, answers, target, 0, seq![], problems, name);
}

proof fn lemma_toolchains_checked(
    deps: Seq<Text>,
    answers: Seq<DepAnswer>,
    target: Text,
    i: int,
    done: Seq<Text>,
    problems: Problems,
    name: Text,
)
    requires
        0 <= i <= deps.len(),
        answers.len() == deps.len(),
    ensures
        toolchains_checked(deps, answers, target, i, done, problems) matches Ok((out, after)) ==> {
            &&& out.contains(name) <==> done.contains(name) || exists|j: int|
                i <= j < deps.len() && #[trigger] deps[j] == name && lets_stay(
                    Check::Yes,
                    answers[j],
                )
            &&& problems.errs.len() <= after.errs.len()
            &&& after.errs.len() == problems.errs.len() <==> forall|j: int|
                i <= j < deps.len() ==> lets_stay(Check::Yes, #[trigger] answers[j])
        },
    decreases deps.len() - i,
{
    if i < deps.len() {
        if let Ok((stays, next)) = checked_dep(answers[i], target, problems) {
            lemma_toolchains_checked(
                deps,
                answers,
                target,
                i + 1,
                if stays {
                    added(done, deps[i])
                } else {
                    done
                },
                next,
                name,
            );
            lemma_push_contains(done, deps[i], name);
            assert(deps[i] == name && stays ==> lets_stay(Check::Yes, answers[i]));
        }
    }
}

/// A toolchain stays exactly where it was found to be visible, and there are new errors
/// exactly where one does not stay.
pub proof fn law_toolchain_deps_checked(
    deps: Seq<Text>,
    answers: Seq<DepAnswer>,
    target: Text,
    problems: Problems,
    name: Text,
)
    requires
        answers.len() == deps.len(),
    ensures
        toolchains_checked(deps, answers, target, 0, seq![], problems) matches Ok((out, after))
            ==> {
            &&& out.contains(name) <==> exists|j: int|
                0 <= j < deps.len() && #[trigger] deps[j] == name && lets_stay(
                    Check::Yes,
                    answers[j],
                )
            &&& after.errs.len() == problems.errs.len() <==> forall|j: int|
                0 <= j < deps.len() ==> lets_stay(Check::Yes, #[trigger] answers[j])
        },
{
    lemma_toolchains_checked(deps, answers, target, 0, seq![], problems, name);
}

/// All is well with the plugins exactly where each that the target itself names was found,
/// has a rule that is not for toolchains, and is visible; those that only came on from a
/// dependency are not looked at.
pub proof fn law_plugins_usable(
    plugins: PluginNotes,
    answers: Seq<PluginAnswer>,
    target: Text,
    i: int,
)
    requires
        0 <= i <= plugins.len(),
        answers.len() == plugins.len(),
    ensures
        plugin_problem(plugins, answers, target, i) is None <==> forall|j: int|
            i <= j < plugins.len() && (#[trigger] plugins[j]).2 == PluginListElemKind::Direct ==> (
            answers[j] matches PluginAnswer::Known { is_toolchain_rule, visible }
                && !is_toolchain_rule && visible == Ok::<bool, InputError>(true)),
    decreases plugins.len() - i,
{
    if i < plugins.len() {
        law_plugins_usable(plugins, answers, target, i + 1);
        if plugins[i].2 == PluginListElemKind::Direct {
            assert(plugins[i].2 == PluginListElemKind::Direct);
        }
    }
}

proof fn lemma_kind_answer(sets: Seq<Seq<(Text, bool)>>, kind: Text)
    ensures
        kind_answer(sets, kind) is Some <==> exists|i: int|
            0 <= i < sets.len() && lookup(#[trigger] sets[i], kind) is Some,
        kind_answer(sets, kind) == Some(true) <==> exists|i: int|
            0 <= i < sets.len() && lookup(#[trigger] sets[i], kind) == Some(true),
    decreases sets.len(),
{
    if sets.len() > 0 {
        let before = sets.drop_last();
        lemma_kind_answer(before, kind);
        assert(sets.last() == sets[sets.len() - 1]);
        assert forall|i: int| 0 <= i < before.len() implies sets[i] == #[trigger] before[i] by {}
        if kind_answer(before, kind) is Some {
            let i = choose|i: int|
                0 <= i < before.len() && lookup(#[trigger] before[i], kind) is Some;
            assert(lookup(sets[i], kind) is Some);
        }
        if kind_answer(before, kind) == Some(true) {
            let i = choose|i: int|
                0 <= i < before.len() && lookup(#[trigger] before[i], kind) == Some(true);
            assert(lookup(sets[i], kind) == Some(true));
        }
        if exists|i: int| 0 <= i < sets.len() && lookup(#[trigger] sets[i], kind) is Some {
            let i = choose|i: int|
                0 <= i < sets.len() && lookup(#[trigger] sets[i], kind) is Some;
            if i < before.len() {
                assert(lookup(before[i], kind) is Some);
            }
        }
        if exists|i: int| 0 <= i < sets.len() && lookup(#[trigger] sets[i], kind) == Some(true) {
            let i = choose|i: int|
                0 <= i < sets.len() && lookup(#[trigger] sets[i], kind) == Some(true);
            if i < before.len() {
                assert(lookup(before[i], kind) == Some(true));
            }
        }
    }
}

proof fn lemma_passed_on(
    plugins: Seq<(Text, PluginListElemKind)>,
    kind: Text,
    how: PluginListElemKind,
    note: (Text, Text, PluginListElemKind),
)
    ensures
        passed_on(plugins, kind, how).contains(note) <==> note.0 == kind && note.2 == how
            && exists|j: int|
            0 <= j < plugins.len() && (#[trigger] plugins[j]).0 == note.1 && plugins[j].1
                != PluginListElemKind::NoPropagate,
    decreases plugins.len(),
{
    if plugins.len() > 0 {
        let before = plugins.drop_last();
        lemma_passed_on(before, kind, how, note);
        assert forall|j: int| 0 <= j < before.len() implies plugins[j] == #[trigger] before[j] by {}
        assert(plugins.last() == plugins[plugins.len() - 1]);
        lemma_push_contains(passed_on(before, kind, how), (kind, plugins.last().0, how), note);
        if exists|j: int|
            0 <= j < before.len() && (#[trigger] before[j]).0 == note.1 && before[j].1
                != PluginListElemKind::NoPropagate {
            let j = choose|j: int|
                0 <= j < before.len() && (#[trigger] before[j]).0 == note.1 && before[j].1
                    != PluginListElemKind::NoPropagate;
            assert(plugins[j].0 == note.1);
        }
        if exists|j: int|
            0 <= j < plugins.len() && (#[trigger] plugins[j]).0 == note.1 && plugins[j].1
                != PluginListElemKind::NoPropagate {
            let j = choose|j: int|
                0 <= j < plugins.len() && (#[trigger] plugins[j]).0 == note.1 && plugins[j].1
                    != PluginListElemKind::NoPropagate;
            if j < before.len() {
                assert(before[j].0 == note.1);
            }
        }
    } else {
        assert(!passed_on(plugins, kind, how).contains(note));
    }
}

/// A plugin of a dependency comes on to the target exactly where its kind was asked for
/// and the dependency does not keep it back; it comes on further from there where one of
/// those that ask says so, and not where none does.
pub proof fn law_plugins_propagate(
    sets: Seq<Seq<(Text, bool)>>,
    lists: Seq<(Text, Seq<(Text, PluginListElemKind)>)>,
    note: (Text, Text, PluginListElemKind),
)
    ensures
        propagated(sets, lists).contains(note) <==> {
            &&& exists|l: int, j: int|
                0 <= l < lists.len() && 0 <= j < lists[l].1.len() && lists[l].0 == note.0 && (
                #[trigger] lists[l].1[j]).0 == note.1 && lists[l].1[j].1
                    != PluginListElemKind::NoPropagate
            &&& if exists|i: int|
                0 <= i < sets.len() && lookup(#[trigger] sets[i], note.0) == Some(true) {
                note.2 == PluginListElemKind::Propagate
            } else {
                note.2 == PluginListElemKind::NoPropagate && exists|i: int|
                    0 <= i < sets.len() && lookup(#[trigger] sets[i], note.0) is Some
            }
        },
    decreases lists.len(),
{
    lemma_kind_answer(sets, note.0);
    if lists.len() > 0 {
        let before = lists.drop_last();
        let (kind, plugins) = lists.last();
        law_plugins_propagate(sets, before, note);
        assert(lists[lists.len() - 1] == lists.last());
        assert forall|l: int| 0 <= l < before.len() implies lists[l] == #[trigger] before[l] by {}
        let old = propagated(sets, before);
        if exists|l: int, j: int|
            0 <= l < before.len() && 0 <= j < before[l].1.len() && before[l].0 == note.0 && (
            #[trigger] before[l].1[j]).0 == note.1 && before[l].1[j].1
                != PluginListElemKind::NoPropagate {
            let (l, j) = choose|l: int, j: int|
                0 <= l < before.len() && 0 <= j < before[l].1.len() && before[l].0 == note.0 && (
                #[trigger] before[l].1[j]).0 == note.1 && before[l].1[j].1
                    != PluginListElemKind::NoPropagate;
            assert(lists[l].1[j].0 == note.1);
        }
        if exists|l: int, j: int|
            0 <= l < lists.len() && 0 <= j < lists[l].1.len() && lists[l].0 == note.0 && (
            #[trigger] lists[l].1[j]).0 == note.1 && lists[l].1[j].1
                != PluginListElemKind::NoPropagate {
            let (l, j) = choose|l: int, j: int|
                0 <= l < lists.len() && 0 <= j < lists[l].1.len() && lists[l].0 == note.0 && (
                #[trigger] lists[l].1[j]).0 == note.1 && lists[l].1[j].1
                    != PluginListElemKind::NoPropagate;
            if l < before.len() {
                assert(before[l].1[j].0 == note.1);
            } else {
                assert(plugins[j].0 == note.1);
            }
        }
        if let Some(yes) = kind_answer(sets, kind) {
            let how = if yes {
                PluginListElemKind::Propagate
            } else {
                PluginListElemKind::NoPropagate
            };
            let more = passed_on(plugins, kind, how);
            lemma_passed_on(plugins, kind, how, note);
            assert((old + more).contains(note) <==> old.contains(note) || more.contains(note)) by {
                if old.contains(note) {
                    let k = choose|k: int| 0 <= k < old.len() && old[k] == note;
                    assert((old + more)[k] == note);
                }
                if more.contains(note) {
                    let k = choose|k: int| 0 <= k < more.len() && more[k] == note;
                    assert((old + more)[old.len() + k] == note);
                }
            }
            if more.contains(note) {
                let j = choose|j: int|
                    0 <= j < plugins.len() && (#[trigger] plugins[j]).0 == note.1 && plugins[j].1
                        != PluginListElemKind::NoPropagate;
                assert(lists[lists.len() - 1].1[j].0 == note.1);
            }
        }
    } else {
        assert(!propagated(sets, lists).contains(note));
    }
}

} // verus!
