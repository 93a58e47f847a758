//! What the attributes of a target ask for, and what becomes of it.

use vstd::prelude::*;
use vstd::string::*;
use crate::attrs::{
    ConfiguredAttr, gives_make_variables, is_bazel_default_make_variable_attribute, labels_in,
};
use crate::configured_nodes::{ConfiguredLabel, ConfiguredTargetLabel};
use crate::dep_maps::{DepUse, DepUseModel, added, law_lookup_placed};
use crate::gather_deps::{
    PluginListElemKind, PluginNotes, Traversal, TraversalModel, propagate_plugins, propagated,
    used_again,
};
use crate::module::InputError;
use crate::ordered::{Duplicate, lemma_push_contains, lookup};
use crate::text::{Text, concat3, same};
use crate::visibility::{
    Check, CheckVisibility, ErrorsAndIncompatibilities, Incompatible, NodeError, NodeErrorModel,
    Outcome, Problems, ResultMaybeCompatible, law_merge,
};

verus! {

/// What the traversal of an attribute meets: a dependency, one with the kinds of
/// plugins that it is asked for, one for execution, a toolchain, or a plugin.
#[derive(Debug)]
pub enum AttrUse {
    Dep(String),
    DepWithPlugins(String, Vec<(String, bool)>),
    ExecDep(String),
    ToolchainDep(String),
    PluginDep { dep: String, kind: String },
}

/// An attribute of a target: the package that its implicit value comes from, its
/// value under the configuration, which it may not have there, and what traversing
/// that meets.
#[derive(Debug)]
pub struct TraversedAttr {
    pub name: String,
    pub implicit_package: Result<Option<String>, InputError>,
    pub configured: ResultMaybeCompatible<ConfiguredAttr>,
    pub uses: Result<Vec<AttrUse>, InputError>,
}

impl TraversalModel {
    /// The traversal of an attribute meets something.
    pub open spec fn with_use(self, met: AttrUse) -> TraversalModel {
        match met {
            AttrUse::Dep(dep) => self.with_dep(dep@),
            AttrUse::DepWithPlugins(dep, kinds) => self.with_plugin_kinds(dep@, kinds.deep_view()),
            AttrUse::ExecDep(dep) => self.with_exec_dep(dep@),
            AttrUse::ToolchainDep(dep) => TraversalModel {
                toolchain_deps: added(self.toolchain_deps, dep@),
                ..self
            },
            AttrUse::PluginDep { dep, kind } => TraversalModel {
                plugins: self.plugins.push((kind@, dep@, PluginListElemKind::Direct)),
                ..self
            },
        }
    }

    /// The traversal of an attribute meets one thing after another.
    pub open spec fn with_uses(self, met: Seq<AttrUse>) -> TraversalModel
        decreases met.len(),
    {
        if met.len() == 0 {
            self
        } else {
            self.with_uses(met.drop_last()).with_use(met.last())
        }
    }

    /// An attribute is traversed: dependencies are checked for the target, or for
    /// the package of the implicit value too. In a Bazel rule each label of the
    /// attributes that give variables is a dependency. An attribute that has no value
    /// under the configuration has nothing to traverse.
    pub open spec fn with_attr(self, attr: TraversedAttr, bazel: bool) -> Outcome<TraversalModel> {
        match (attr.implicit_package, attr.configured, attr.uses) {
            (Err(e), _, _) => Outcome::Error(NodeErrorModel::Other(e.deep_view())),
            (_, ResultMaybeCompatible::Incompatible(reason), _) => Outcome::Incompatible(
                reason.deep_view(),
            ),
            (_, ResultMaybeCompatible::Error(e), _) => Outcome::Error(e.deep_view()),
            (_, _, Err(e)) => Outcome::Error(
                NodeErrorModel::Other(
                    "traversing attribute `"@ + attr.name@ + "`: "@ + e.deep_view(),
                ),
            ),
            (Ok(package), ResultMaybeCompatible::Compatible(value), Ok(uses)) => {
                let check = match package.deep_view() {
                    Some(package) => Check::OrPackages(seq![package]),
                    None => Check::Yes,
                };
                let met = TraversalModel { check, ..self }.with_uses(uses@);
                Outcome::Compatible(
                    if bazel && gives_make_variables(attr.name@) {
                        met.with_deps(labels_in(value), 0)
                    } else {
                        met
                    },
                )
            },
        }
    }
}

/// What the attributes from `i` on ask for, beside what was asked for before. The
/// first of them that has no value, or cannot be traversed, decides.
pub open spec fn traversed(
    attrs: Seq<TraversedAttr>,
    bazel: bool,
    i: int,
    before: TraversalModel,
) -> Outcome<TraversalModel>
    decreases attrs.len() - i,
{
    if i < 0 || i >= attrs.len() {
        Outcome::Compatible(before)
    } else {
        match before.with_attr(attrs[i], bazel) {
            Outcome::Compatible(after) => traversed(attrs, bazel, i + 1, after),
            stopped => stopped,
        }
    }
}

/// Nothing is asked for.
pub open spec fn nothing_asked() -> TraversalModel {
    TraversalModel {
        deps: seq![],
        exec_deps: seq![],
        toolchain_deps: seq![],
        plugins: seq![],
        check: Check::Yes,
    }
}

impl Traversal {
    fn take_uses(&mut self, uses: &Vec<AttrUse>)
        ensures
            final(self).deep_view() == old(self).deep_view().with_uses(uses@),
    {
        let ghost before = self.deep_view();
        let mut i: usize = 0;
        assert(uses@.take(0) =~= seq![]);
        while i < uses.len()
            invariant
                0 <= i <= uses@.len(),
                self.deep_view() == before.with_uses(uses@.take(i as int)),
            decreases uses.len() - i,
        {
            proof {
                let t = uses@.take(i + 1);
                assert(t.drop_last() =~= uses@.take(i as int));
                assert(t.last() == uses@[i as int]);
            }
            match &uses[i] {
                AttrUse::Dep(dep) => self.dep(dep.as_str()),
                AttrUse::DepWithPlugins(dep, kinds) => self.dep_with_plugins(
                    dep.as_str(),
                    kinds.duplicate(),
                ),
                AttrUse::ExecDep(dep) => self.exec_dep(dep.as_str()),
                AttrUse::ToolchainDep(dep) => self.toolchain_dep(dep.as_str()),
                AttrUse::PluginDep { dep, kind } => self.plugin_dep(dep.as_str(), kind.as_str()),
            }
            i += 1;
        }
        assert(uses@.take(i as int) =~= uses@);
    }

    fn take_attr(&mut self, attr: &TraversedAttr, is_bazel_rule: bool) -> (r: ResultMaybeCompatible<
        (),
    >)
        ensures
            match old(self).deep_view().with_attr(*attr, is_bazel_rule) {
                Outcome::Incompatible(reason) => r matches ResultMaybeCompatible::Incompatible(found)
                    && found.deep_view() == reason,
                Outcome::Error(e) => r matches ResultMaybeCompatible::Error(found)
                    && found.deep_view() == e,
                Outcome::Compatible(after) => r is Compatible && final(self).deep_view() == after,
            },
    {
        let package = match &attr.implicit_package {
            Ok(package) => package.duplicate(),
            Err(e) => {
                return ResultMaybeCompatible::Error(NodeError::Other(e.duplicate()));
            },
        };
        let value = match &attr.configured {
            ResultMaybeCompatible::Compatible(value) => value,
            ResultMaybeCompatible::Incompatible(reason) => {
                return ResultMaybeCompatible::Incompatible(reason.duplicate());
            },
            ResultMaybeCompatible::Error(e) => {
                return ResultMaybeCompatible::Error(e.duplicate());
            },
        };
        match &attr.uses {
            Ok(uses) => {
                self.set_visibility_check(CheckVisibility::for_bazel_attr(package));
                self.take_uses(uses);
            },
            Err(e) => {
                let mut message = concat3("traversing attribute `", attr.name.as_str(), "`: ");
                message.append(e.message.as_str());
                return ResultMaybeCompatible::Error(NodeError::Other(InputError { message }));
            },
        }
        if is_bazel_rule && is_bazel_default_make_variable_attribute(attr.name.as_str()) {
            self.insert_bazel_make_variable_label_deps(value);
        }
        ResultMaybeCompatible::Compatible(())
    }

    /// What the attributes of a target ask for.
    pub fn of_attrs(attrs: &Vec<TraversedAttr>, is_bazel_rule: bool) -> (r: ResultMaybeCompatible<
        Traversal,
    >)
        ensures
            r.deep_view() == traversed(attrs@, is_bazel_rule, 0, nothing_asked()),
    {
        let mut traversal = Traversal::new();
        let mut i: usize = 0;
        while i < attrs.len()
            invariant
                0 <= i <= attrs@.len(),
                traversed(attrs@, is_bazel_rule, 0, nothing_asked()) == traversed(
                    attrs@,
                    is_bazel_rule,
                    i as int,
                    traversal.deep_view(),
                ),
            decreases attrs.len() - i,
        {
            match traversal.take_attr(&attrs[i], is_bazel_rule) {
                ResultMaybeCompatible::Compatible(_) => {},
                ResultMaybeCompatible::Incompatible(reason) => {
                    return ResultMaybeCompatible::Incompatible(reason);
                },
                ResultMaybeCompatible::Error(e) => {
                    return ResultMaybeCompatible::Error(e);
                },
            }
            i += 1;
        }
        ResultMaybeCompatible::Compatible(traversal)
    }
}

impl TraversedAttr {
    /// The attribute has a value under the configuration, and can be traversed.
    pub open spec fn is_traversable(self) -> bool {
        self.implicit_package is Ok && self.configured is Compatible && self.uses is Ok
    }
}

/// The first attribute that has no value under the configuration, or cannot be
/// traversed, decides what the traversal comes to, whatever comes behind it.
pub proof fn law_first_stop_decides(
    attrs: Seq<TraversedAttr>,
    bazel: bool,
    i: int,
    k: int,
    before: TraversalModel,
)
    requires
        0 <= i <= k < attrs.len(),
        forall|j: int| i <= j < k ==> (#[trigger] attrs[j]).is_traversable(),
        !attrs[k].is_traversable(),
    ensures
        !(traversed(attrs, bazel, i, before) is Compatible),
        traversed(attrs, bazel, i, before) == before.with_attr(attrs[k], bazel),
    decreases k - i,
{
    if i < k {
        assert(attrs[i].is_traversable());
        if let Outcome::Compatible(after) = before.with_attr(attrs[i], bazel) {
            law_first_stop_decides(attrs, bazel, i + 1, k, after);
        }
    }
}

/// A target under a configuration, as far as those that depend on it read it: its
/// label, and its plugins by their kinds.
#[derive(Debug, PartialEq, Eq)]
pub struct ConfiguredTargetNode {
    pub label: ConfiguredTargetLabel,
    pub plugin_lists: Vec<(String, Vec<(String, PluginListElemKind)>)>,
}

/// What came of a dependency, and whether it is visible to the target.
#[derive(Debug)]
pub struct DepResult {
    pub result: ResultMaybeCompatible<ConfiguredTargetNode>,
    pub visible: Result<bool, InputError>,
}

/// What was gathered so far: the dependencies, the plugins and the problems.
pub struct Gathering {
    pub deps: Seq<ConfiguredTargetNode>,
    pub plugins: PluginNotes,
    pub problems: Problems,
}

/// What is gathered once a dependency is taken in: where it can be had, the
/// dependency and those of its plugins that are asked for; else the problem.
pub open spec fn with_dep_result(
    used: DepUseModel,
    dep: DepResult,
    target: ConfiguredLabel,
    before: Gathering,
) -> Gathering {
    match dep.result {
        ResultMaybeCompatible::Error(e) => Gathering {
            problems: before.problems.with_err(e.deep_view()),
            ..before
        },
        ResultMaybeCompatible::Incompatible(reason) => Gathering {
            problems: before.problems.with_incompat(reason.deep_view().through(target.text())),
            ..before
        },
        ResultMaybeCompatible::Compatible(node) => if used.check is No || dep.visible == Ok::<
            bool,
            InputError,
        >(true) {
            Gathering {
                deps: before.deps.push(node),
                plugins: before.plugins + propagated(
                    used.plugin_kinds,
                    node.plugin_lists.deep_view(),
                ),
                ..before
            }
        } else {
            Gathering {
                problems: before.problems.with_err(
                    match dep.visible {
                        Ok(_) => NodeErrorModel::NotVisibleTo(
                            node.label.unconfigured@,
                            target.unconfigured,
                        ),
                        Err(e) => NodeErrorModel::Other(e.deep_view()),
                    },
                ),
                ..before
            }
        },
    }
}

/// What is gathered once the dependencies from `i` on are taken in.
pub open spec fn with_dep_results(
    uses: Seq<(Text, DepUseModel)>,
    results: Seq<DepResult>,
    target: ConfiguredLabel,
    i: int,
    before: Gathering,
) -> Gathering
    decreases results.len() - i,
{
    if i < 0 || i >= results.len() {
        before
    } else {
        with_dep_results(
            uses,
            results,
            target,
            i + 1,
            with_dep_result(uses[i].1, results[i], target, before),
        )
    }
}

/// Takes in the dependencies that can be had, with those of their plugins that
/// are asked for. The uses and the results are in the same order.
pub fn gather_deps(
    uses: &Vec<(&String, &DepUse)>,
    results: Vec<DepResult>,
    target_label: &ConfiguredTargetLabel,
    plugins: &mut Vec<(String, String, PluginListElemKind)>,
    problems: &mut ErrorsAndIncompatibilities,
) -> (r: Vec<ConfiguredTargetNode>)
    requires
        uses@.len() == results@.len(),
    ensures
        ({
            let after = with_dep_results(
                uses.deep_view(),
                results@,
                target_label.deep_view(),
                0,
                Gathering {
                    deps: seq![],
                    plugins: old(plugins).deep_view(),
                    problems: old(problems).deep_view(),
                },
            );
            &&& r@ == after.deps
            &&& final(plugins).deep_view() == after.plugins
            &&& final(problems).deep_view() == after.problems
        }),
{
    let ghost all = results@;
    let ghost asked = uses.deep_view();
    let ghost first = Gathering {
        deps: seq![],
        plugins: plugins.deep_view(),
        problems: problems.deep_view(),
    };
    let ghost target = target_label.deep_view();
    let mut deps: Vec<ConfiguredTargetNode> = Vec::new();
    let count: usize = uses.len();
    let mut i: usize = 0;
    for dep in it: results
        invariant
            all == it.seq(),
            uses@.len() == count,
            asked == uses.deep_view(),
            asked.len() == uses@.len(),
            uses@.len() == all.len(),
            i == it.index(),
            target == target_label.deep_view(),
            with_dep_results(asked, all, target, 0, first) == with_dep_results(
                asked,
                all,
                target,
                i as int,
                Gathering {
                    deps: deps@,
                    plugins: plugins.deep_view(),
                    problems: problems.deep_view(),
                },
            ),
    {
        let ghost noted = plugins.deep_view();
        assert(asked[i as int] == (uses@[i as int].0@, uses@[i as int].1.deep_view()));
        let used = uses[i].1;
        let dep_label = match &dep.result {
            ResultMaybeCompatible::Compatible(node) => node.label.unconfigured.clone(),
            _ => String::new(),
        };
        let found = problems.unpack_dep(
            target_label,
            dep_label.as_str(),
            dep.result,
            &used.check,
            dep.visible,
        );
        match found {
            Some(node) => {
                propagate_plugins(plugins, &used.plugin_kinds, &node.plugin_lists);
                deps.push(node);
            },
            None => {},
        }
        i += 1;
    }
    deps
}

/// The targets of the plugins of the kinds, for each kind in order.
pub open spec fn plugin_targets(plugins: PluginNotes, kinds: Seq<Text>) -> Seq<Text>
    decreases kinds.len(),
{
    if kinds.len() == 0 {
        seq![]
    } else {
        plugin_targets(plugins, kinds.drop_last()) + targets_of_kind(plugins, kinds.last())
    }
}

/// The targets of the plugins of one kind, in order.
pub open spec fn targets_of_kind(plugins: PluginNotes, kind: Text) -> Seq<Text>
    decreases plugins.len(),
{
    if plugins.len() == 0 {
        seq![]
    } else if plugins.last().0 == kind {
        targets_of_kind(plugins.drop_last(), kind).push(plugins.last().1)
    } else {
        targets_of_kind(plugins.drop_last(), kind)
    }
}

/// The targets of the plugins of the kinds that a target uses, for each kind in
/// order: they are dependencies for execution.
pub fn plugin_exec_targets(
    plugins: &Vec<(String, String, PluginListElemKind)>,
    uses_plugins: &Vec<String>,
) -> (r: Vec<String>)
    ensures
        r.deep_view() == plugin_targets(plugins.deep_view(), uses_plugins.deep_view()),
{
    let ghost model = plugins.deep_view();
    let ghost kinds = uses_plugins.deep_view();
    let mut out: Vec<String> = Vec::new();
    let mut i: usize = 0;
    assert(out.deep_view() =~= plugin_targets(model, kinds.take(0)));
    while i < uses_plugins.len()
        invariant
            model == plugins.deep_view(),
            kinds == uses_plugins.deep_view(),
            0 <= i <= uses_plugins@.len(),
            out.deep_view() =~= plugin_targets(model, kinds.take(i as int)),
        decreases uses_plugins.len() - i,
    {
        let ghost before = out.deep_view();
        let ghost kind = kinds[i as int];
        proof {
            let t = kinds.take(i + 1);
            assert(t.drop_last() =~= kinds.take(i as int));
            assert(t.last() == uses_plugins@[i as int]@);
        }
        let mut j: usize = 0;
        assert(before + targets_of_kind(model.take(0), kind) =~= before);
        while j < plugins.len()
            invariant
                model == plugins.deep_view(),
                0 <= i < uses_plugins@.len(),
                kind == uses_plugins@[i as int]@,
                0 <= j <= plugins@.len(),
                out.deep_view() =~= before + targets_of_kind(model.take(j as int), kind),
            decreases plugins.len() - j,
        {
            let ghost so_far = out.deep_view();
            proof {
                let t = model.take(j + 1);
                assert(t.drop_last() =~= model.take(j as int));
                assert(t.last() == plugins@[j as int].deep_view());
            }
            if same(plugins[j].0.as_str(), uses_plugins[i].as_str()) {
                out.push(plugins[j].1.clone());
                assert(out.deep_view() =~= so_far.push(plugins@[j as int].1@));
            }
            j += 1;
        }
        assert(model.take(j as int) =~= model);
        i += 1;
    }
    assert(kinds.take(i as int) =~= kinds);
    out
}

/// The dependency can be had and is visible to the target, or is not checked.
pub open spec fn can_be_had(used: DepUseModel, dep: DepResult) -> bool {
    dep.result is Compatible && (used.check is No || dep.visible == Ok::<bool, InputError>(true))
}

/// The dependencies of a target are those that can be had and are visible. There are new
/// problems exactly where one is not: a reason through the target for one that is
/// incompatible, and an error for any other.
pub proof fn law_deps_gathered(
    uses: Seq<(Text, DepUseModel)>,
    results: Seq<DepResult>,
    target: ConfiguredLabel,
    i: int,
    before: Gathering,
    node: ConfiguredTargetNode,
    reason: Incompatible,
)
    requires
        0 <= i <= results.len(),
        uses.len() == results.len(),
    ensures
        ({
            let after = with_dep_results(uses, results, target, i, before);
            &&& after.deps.contains(node) <==> before.deps.contains(node) || exists|j: int|
                i <= j < results.len() && can_be_had(uses[j].1, #[trigger] results[j])
                    && results[j].result == ResultMaybeCompatible::Compatible(node)
            &&& after.problems.incompats.contains(reason) <==> before.problems.incompats.contains(
                reason,
            ) || exists|j: int|
                i <= j < results.len() && ((
                #[trigger] results[j]).result matches ResultMaybeCompatible::Incompatible(own)
                    && reason.targets == seq![target.text()] + own.deep_view().targets
                    && reason.cause == own.deep_view().cause)
            &&& before.problems.errs.len() <= after.problems.errs.len()
            &&& after.problems.errs.len() == before.problems.errs.len() <==> forall|j: int|
                i <= j < results.len() ==> can_be_had(uses[j].1, #[trigger] results[j])
                    || results[j].result is Incompatible
        }),
    decreases results.len() - i,
{
    if i < results.len() {
        let next = with_dep_result(uses[i].1, results[i], target, before);
        law_deps_gathered(uses, results, target, i + 1, next, node, reason);
        match results[i].result {
            ResultMaybeCompatible::Compatible(own) => {
                lemma_push_contains(before.deps, own, node);
            },
            ResultMaybeCompatible::Incompatible(own) => {
                lemma_push_contains(
                    before.problems.incompats,
                    own.deep_view().through(target.text()),
                    reason,
                );
                assert(results[i].result is Incompatible);
            },
            ResultMaybeCompatible::Error(_) => {
                assert(!can_be_had(uses[i].1, results[i]));
            },
        }
    }
}

/// The targets of plugins that become dependencies for execution are those of the kinds
/// that the target uses.
pub proof fn law_plugin_targets(plugins: PluginNotes, kinds: Seq<Text>, target: Text)
    ensures
        plugin_targets(plugins, kinds).contains(target) <==> exists|k: int, p: int|
            0 <= k < kinds.len() && 0 <= p < plugins.len() && #[trigger] kinds[k] == (
            #[trigger] plugins[p]).0 && plugins[p].1 == target,
    decreases kinds.len(),
{
    if kinds.len() > 0 {
        let init = kinds.drop_last();
        let kind = kinds.last();
        law_plugin_targets(plugins, init, target);
        lemma_targets_of_kind(plugins, kind, target);
        let a = plugin_targets(plugins, init);
        let b = targets_of_kind(plugins, kind);
        assert((a + b).contains(target) <==> a.contains(target) || b.contains(target)) by {
            if a.contains(target) {
                let i = choose|i: int| 0 <= i < a.len() && a[i] == target;
                assert((a + b)[i] == target);
            }
            if b.contains(target) {
                let i = choose|i: int| 0 <= i < b.len() && b[i] == target;
                assert((a + b)[a.len() + i] == target);
            }
        }
        assert(kinds[kinds.len() - 1] == kind);
        if a.contains(target) {
            let (k, p) = choose|k: int, p: int|
                0 <= k < init.len() && 0 <= p < plugins.len() && #[trigger] init[k] == (
                #[trigger] plugins[p]).0 && plugins[p].1 == target;
            assert(kinds[k] == plugins[p].0);
        }
        if b.contains(target) {
            let p = choose|p: int|
                0 <= p < plugins.len() && (#[trigger] plugins[p]).0 == kind && plugins[p].1
                    == target;
            assert(kinds[kinds.len() - 1] == plugins[p].0);
        }
        if exists|k: int, p: int|
            0 <= k < kinds.len() && 0 <= p < plugins.len() && #[trigger] kinds[k] == (
            #[trigger] plugins[p]).0 && plugins[p].1 == target {
            let (k, p) = choose|k: int, p: int|
                0 <= k < kinds.len() && 0 <= p < plugins.len() && #[trigger] kinds[k] == (
                #[trigger] plugins[p]).0 && plugins[p].1 == target;
            if k < init.len() {
                assert(init[k] == plugins[p].0);
            } else {
                assert(plugins[p].0 == kind);
            }
        }
    } else {
        assert(!plugin_targets(plugins, kinds).contains(target));
    }
}

proof fn lemma_targets_of_kind(plugins: PluginNotes, kind: Text, target: Text)
    ensures
        targets_of_kind(plugins, kind).contains(target) <==> exists|p: int|
            0 <= p < plugins.len() && (#[trigger] plugins[p]).0 == kind && plugins[p].1 == target,
    decreases plugins.len(),
{
    if plugins.len() > 0 {
        let init = plugins.drop_last();
        lemma_targets_of_kind(init, kind, target);
        lemma_push_contains(targets_of_kind(init, kind), plugins.last().1, target);
        assert(plugins[plugins.len() - 1] == plugins.last());
        if exists|p: int|
            0 <= p < init.len() && (#[trigger] init[p]).0 == kind && init[p].1 == target {
            let p = choose|p: int|
                0 <= p < init.len() && (#[trigger] init[p]).0 == kind && init[p].1 == target;
            assert(plugins[p].0 == kind);
        }
        if exists|p: int|
            0 <= p < plugins.len() && (#[trigger] plugins[p]).0 == kind && plugins[p].1
                == target {
            let p = choose|p: int|
                0 <= p < plugins.len() && (#[trigger] plugins[p]).0 == kind && plugins[p].1
                    == target;
            if p < init.len() {
                assert(init[p].0 == kind);
            }
        }
    } else {
        assert(!targets_of_kind(plugins, kind).contains(target));
    }
}

/// What was asked for stays asked for.
pub open spec fn asks_at_least(before: TraversalModel, after: TraversalModel) -> bool {
    &&& forall|d: Text| #[trigger]
        lookup(before.deps, d) is Some ==> lookup(after.deps, d) is Some
    &&& forall|d: Text| #[trigger]
        lookup(before.exec_deps, d) is Some ==> lookup(after.exec_deps, d) is Some
    &&& forall|d: Text| #[trigger]
        before.toolchain_deps.contains(d) ==> after.toolchain_deps.contains(d)
    &&& forall|p: (Text, Text, PluginListElemKind)| #[trigger]
        before.plugins.contains(p) ==> after.plugins.contains(p)
}

/// What the traversal of an attribute met is asked for.
pub open spec fn is_asked(asked: TraversalModel, met: AttrUse) -> bool {
    match met {
        AttrUse::Dep(dep) => lookup(asked.deps, dep@) is Some,
        AttrUse::DepWithPlugins(dep, _) => lookup(asked.deps, dep@) is Some,
        AttrUse::ExecDep(dep) => lookup(asked.exec_deps, dep@) is Some,
        AttrUse::ToolchainDep(dep) => asked.toolchain_deps.contains(dep@),
        AttrUse::PluginDep { dep, kind } => asked.plugins.contains(
            (kind@, dep@, PluginListElemKind::Direct),
        ),
    }
}

proof fn lemma_dep_asked(before: TraversalModel, dep: Text)
    ensures
        asks_at_least(before, before.with_dep(dep)),
        lookup(before.with_dep(dep).deps, dep) is Some,
{
    let used = used_again(before.deps, dep, before.check);
    assert forall|d: Text| #[trigger] lookup(before.deps, d) is Some implies lookup(
        before.with_dep(dep).deps,
        d,
    ) is Some by {
        law_lookup_placed(before.deps, dep, used, d);
    }
    law_lookup_placed(before.deps, dep, used, dep);
}

proof fn lemma_use_asked(before: TraversalModel, met: AttrUse)
    ensures
        asks_at_least(before, before.with_use(met)),
        is_asked(before.with_use(met), met),
{
    let after = before.with_use(met);
    match met {
        AttrUse::Dep(dep) => lemma_dep_asked(before, dep@),
        AttrUse::DepWithPlugins(dep, kinds) => {
            let used = used_again(before.deps, dep@, before.check);
            let more = DepUseModel {
                plugin_kinds: if used.plugin_kinds.contains(kinds.deep_view()) {
                    used.plugin_kinds
                } else {
                    used.plugin_kinds.push(kinds.deep_view())
                },
                ..used
            };
            assert forall|d: Text| #[trigger] lookup(before.deps, d) is Some implies lookup(
                after.deps,
                d,
            ) is Some by {
                law_lookup_placed(before.deps, dep@, more, d);
            }
            law_lookup_placed(before.deps, dep@, more, dep@);
        },
        AttrUse::ExecDep(dep) => {
            let check = match lookup(before.exec_deps, dep@) {
                Some(check) => check.merged(before.check),
                None => before.check.merged(before.check),
            };
            assert forall|d: Text| #[trigger] lookup(before.exec_deps, d) is Some implies lookup(
                after.exec_deps,
                d,
            ) is Some by {
                law_lookup_placed(before.exec_deps, dep@, check, d);
            }
            law_lookup_placed(before.exec_deps, dep@, check, dep@);
        },
        AttrUse::ToolchainDep(dep) => {
            assert forall|d: Text| #[trigger]
                before.toolchain_deps.contains(d) implies after.toolchain_deps.contains(d) by {
                lemma_push_contains(before.toolchain_deps, dep@, d);
            }
            lemma_push_contains(before.toolchain_deps, dep@, dep@);
        },
        AttrUse::PluginDep { dep, kind } => {
            let note = (kind@, dep@, PluginListElemKind::Direct);
            assert forall|p: (Text, Text, PluginListElemKind)| #[trigger]
                before.plugins.contains(p) implies after.plugins.contains(p) by {
                lemma_push_contains(before.plugins, note, p);
            }
            lemma_push_contains(before.plugins, note, note);
        },
    }
}

proof fn lemma_asked_stays(a: TraversalModel, b: TraversalModel, met: AttrUse)
    requires
        asks_at_least(a, b),
        is_asked(a, met),
    ensures
        is_asked(b, met),
{
}

proof fn lemma_uses_asked(before: TraversalModel, met: Seq<AttrUse>)
    ensures
        asks_at_least(before, before.with_uses(met)),
        forall|k: int|
            0 <= k < met.len() ==> is_asked(before.with_uses(met), #[trigger] met[k]),
    decreases met.len(),
{
    if met.len() > 0 {
        let init = met.drop_last();
        let mid = before.with_uses(init);
        lemma_uses_asked(before, init);
        lemma_use_asked(mid, met.last());
        assert forall|k: int| 0 <= k < met.len() implies is_asked(
            before.with_uses(met),
            #[trigger] met[k],
        ) by {
            if k < init.len() {
                assert(init[k] == met[k]);
                lemma_asked_stays(mid, before.with_uses(met), met[k]);
            }
        }
    }
}

proof fn lemma_deps_asked(before: TraversalModel, deps: Seq<Text>, i: int)
    requires
        0 <= i <= deps.len(),
    ensures
        asks_at_least(before, before.with_deps(deps, i)),
        forall|k: int|
            i <= k < deps.len() ==> lookup(before.with_deps(deps, i).deps, #[trigger] deps[k])
                is Some,
    decreases deps.len() - i,
{
    if i < deps.len() {
        lemma_dep_asked(before, deps[i]);
        lemma_deps_asked(before.with_dep(deps[i]), deps, i + 1);
    }
}

/// All that the attributes of a target meet is asked for, and in a Bazel rule each label
/// of the attributes that give variables too; nothing that was asked for is lost.
pub proof fn law_all_is_asked(
    attrs: Seq<TraversedAttr>,
    bazel: bool,
    i: int,
    before: TraversalModel,
)
    requires
        0 <= i <= attrs.len(),
    ensures
        traversed(attrs, bazel, i, before) matches Outcome::Compatible(asked) ==> {
            &&& asks_at_least(before, asked)
            &&& forall|j: int, k: int|
                i <= j < attrs.len() && attrs[j].uses is Ok && 0 <= k < attrs[j].uses->Ok_0@.len()
                    ==> is_asked(asked, #[trigger] attrs[j].uses->Ok_0@[k])
            &&& bazel ==> forall|j: int, k: int|
                i <= j < attrs.len() && gives_make_variables(attrs[j].name@)
                    && attrs[j].configured is Compatible && 0 <= k < labels_in(
                    attrs[j].configured->Compatible_0,
                ).len() ==> lookup(
                    asked.deps,
                    #[trigger] labels_in(attrs[j].configured->Compatible_0)[k],
                ) is Some
        },
    decreases attrs.len() - i,
{
    if i < attrs.len() {
        if let Outcome::Compatible(next) = before.with_attr(attrs[i], bazel) {
            let uses = attrs[i].uses->Ok_0@;
            let check = match attrs[i].implicit_package->Ok_0.deep_view() {
                Some(package) => Check::OrPackages(seq![package]),
                None => Check::Yes,
            };
            let start = TraversalModel { check, ..before };
            let met = start.with_uses(uses);
            lemma_uses_asked(start, uses);
            assert(start.deps == before.deps && start.exec_deps == before.exec_deps);
            assert(start.toolchain_deps == before.toolchain_deps);
            assert(start.plugins == before.plugins);
            assert(asks_at_least(before, met));
            if bazel && gives_make_variables(attrs[i].name@) {
                lemma_deps_asked(met, labels_in(attrs[i].configured->Compatible_0), 0);
            }
            assert(asks_at_least(before, next));
            law_all_is_asked(attrs, bazel, i + 1, next);
            if let Outcome::Compatible(asked) = traversed(attrs, bazel, i, before) {
                assert forall|j: int, k: int|
                    i <= j < attrs.len() && attrs[j].uses is Ok && 0 <= k
                        < attrs[j].uses->Ok_0@.len() implies is_asked(
                    asked,
                    #[trigger] attrs[j].uses->Ok_0@[k],
                ) by {
                    if j == i {
                        assert(is_asked(met, uses[k]));
                        lemma_asked_stays(met, next, uses[k]);
                        lemma_asked_stays(next, asked, uses[k]);
                    }
                }
            }
        }
    }
}

/// A dependency that is met first in an attribute is checked for the target, or, where the
/// value of the attribute comes from a package, for that package too; one that was asked
/// for before keeps to the stricter of the two checks.
pub proof fn law_dependency_check(before: TraversalModel, attr: TraversedAttr, dep: String)
    requires
        attr.configured is Compatible,
        attr.uses matches Ok(uses) && uses@ == seq![AttrUse::Dep(dep)],
        attr.implicit_package is Ok,
    ensures
        before.with_attr(attr, false) matches Outcome::Compatible(after) && {
            let check = match attr.implicit_package->Ok_0 {
                Some(package) => Check::OrPackages(seq![package@]),
                None => Check::Yes,
            };
            &&& lookup(before.deps, dep@) is None ==> lookup(after.deps, dep@) is Some && lookup(
                after.deps,
                dep@,
            )->0.check == check
            &&& lookup(before.deps, dep@) is Some ==> lookup(after.deps, dep@) is Some && lookup(
                after.deps,
                dep@,
            )->0.check == lookup(before.deps, dep@)->0.check.merged(check)
        },
{
    let check = match attr.implicit_package->Ok_0.deep_view() {
        Some(package) => Check::OrPackages(seq![package]),
        None => Check::Yes,
    };
    let start = TraversalModel { check, ..before };
    let uses = seq![AttrUse::Dep(dep)];
    assert(uses.drop_last() =~= seq![]);
    assert(uses.last() == AttrUse::Dep(dep));
    reveal_with_fuel(TraversalModel::with_uses, 3);
    assert(start.with_uses(uses) == start.with_dep(dep@));
    let used = used_again(start.deps, dep@, check);
    law_lookup_placed(start.deps, dep@, used, dep@);
    law_merge(check);
}

} // verus!
