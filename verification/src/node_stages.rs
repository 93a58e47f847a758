//! The stages in which a target under a configuration is computed: between two
//! of them, something is looked up.

use starlark_map::ordered_map::OrderedMap;
use vstd::prelude::*;
use vstd::string::*;
use crate::attr_traversal::{
    ConfiguredTargetNode, DepResult, Gathering, TraversedAttr, gather_deps, nothing_asked,
    plugin_exec_targets, plugin_targets, traversed, with_dep_results,
};
use crate::configured_nodes::{
    CompatibleWith, ConfiguredLabel, ConfiguredTargetLabel, check_compatible, compatible,
};
use crate::dep_maps::{
    DepUse, law_lookup_placed, new_text_map, placed, text_entries, text_insert, text_items,
};
use crate::gather_deps::{
    DepAnswer, GatheredDeps, PluginAnswer, PluginDepError, PluginListElemKind, PluginProblem,
    Traversal, TraversalModel, check_plugin_deps, exec_checked, plugin_problem, toolchains_checked,
    with_unchecked,
};
use crate::module::InputError;
use crate::ordered::{Duplicate, lookup};
use crate::text::{Text, concat3};
use crate::visibility::{
    Cause, CheckVisibility, ErrorsAndIncompatibilities, Incompatible, IncompatiblePlatformReason,
    NodeError, NodeErrorModel, Outcome, Problems, ResultMaybeCompatible,
};

verus! {

/// Why a target under a configuration is not computed.
#[derive(Debug, PartialEq, Eq)]
pub enum NodeStop {
    Incompatible(IncompatiblePlatformReason),
    Failed(NodeError),
    PluginFailed(PluginDepError),
}

/// The model of [`NodeStop`].
pub enum NodeStopModel {
    Incompatible(Incompatible),
    Failed(NodeErrorModel),
    PluginFailed(PluginProblem),
}

impl DeepView for NodeStop {
    type V = NodeStopModel;

    open spec fn deep_view(&self) -> NodeStopModel {
        match self {
            NodeStop::Incompatible(reason) => NodeStopModel::Incompatible(reason.deep_view()),
            NodeStop::Failed(e) => NodeStopModel::Failed(e.deep_view()),
            NodeStop::PluginFailed(e) => NodeStopModel::PluginFailed(e.deep_view()),
        }
    }
}

/// The stop at a message.
pub open spec fn stop_at(message: Text) -> NodeStopModel {
    NodeStopModel::Failed(NodeErrorModel::Other(message))
}

fn stop(e: InputError) -> (r: NodeStop)
    ensures
        r.deep_view() == stop_at(e.deep_view()),
{
    NodeStop::Failed(NodeError::Other(e))
}

/// What is said where the configuration of a target cannot be resolved.
pub open spec fn unresolved(target: ConfiguredLabel, message: Text) -> Text {
    "Error resolving configuration deps of `"@ + target.text() + "`: "@ + message
}

/// What is said where the configuration of a target cannot be resolved.
pub fn resolution_error(target: &ConfiguredTargetLabel, e: &InputError) -> (r: InputError)
    ensures
        r.deep_view() == unresolved(target.deep_view(), e.deep_view()),
{
    let label = target.display();
    let mut message = concat3("Error resolving configuration deps of `", label.as_str(), "`: ");
    message.append(e.message.as_str());
    InputError { message }
}

/// What is said where a target cannot be looked up apart from any configuration.
pub fn lookup_error(label: &str, e: &InputError) -> (r: InputError)
    ensures
        r.deep_view() == "looking up unconfigured target node `"@ + label@ + "`: "@
            + e.deep_view(),
{
    let mut message = concat3("looking up unconfigured target node `", label, "`: ");
    message.append(e.message.as_str());
    InputError { message }
}

/// What is known of a target from the start: its label, whether its rule is a
/// Bazel one, whether its configuration is unbound, and the kinds of plugins that
/// its rule uses.
#[derive(Debug)]
pub struct NodeFacts {
    pub target: ConfiguredTargetLabel,
    pub is_bazel_rule: bool,
    pub is_unbound: bool,
    pub uses_plugins: Vec<String>,
}

impl NodeFacts {
    /// The label without a configuration for execution.
    pub open spec fn partial_label(self) -> ConfiguredLabel {
        ConfiguredLabel { exec_cfg: None, ..self.target.deep_view() }
    }

    fn partial(&self) -> (r: ConfiguredTargetLabel)
        ensures
            r.deep_view() == self.partial_label(),
    {
        ConfiguredTargetLabel {
            unconfigured: self.target.unconfigured.clone(),
            cfg: self.target.cfg.clone(),
            exec_cfg: None,
        }
    }
}

/// A target that is compatible with its configuration.
#[derive(Debug)]
pub struct CompatibleNode {
    pub facts: NodeFacts,
}

/// Starts the computation of a target: the configuration is resolved, and the
/// target compatible with it.
pub fn start_configured_node(
    facts: NodeFacts,
    settings: &Result<(Option<CompatibleWith>, Option<CompatibleWith>), InputError>,
) -> (r: Result<CompatibleNode, NodeStop>)
    ensures
        match *settings {
            Err(e) => r matches Err(stop) && stop.deep_view() == stop_at(
                unresolved(facts.target.deep_view(), e.deep_view()),
            ),
            Ok((target_compatible_with, legacy_compatible_with)) => match compatible(
                facts.target.deep_view().text(),
                target_compatible_with,
                legacy_compatible_with,
            ) {
                Err(message) => r matches Err(stop) && stop.deep_view() == stop_at(message),
                Ok(Some(unmet)) => r matches Err(stop) && stop.deep_view()
                    == NodeStopModel::Incompatible(
                    Incompatible {
                        targets: seq![facts.target.deep_view().text()],
                        cause: Cause::UnsatisfiedConfig(unmet),
                    },
                ),
                Ok(None) => r matches Ok(node) && node.facts == facts,
            },
        },
{
    match settings {
        Err(e) => Err(stop(resolution_error(&facts.target, e))),
        Ok((target_compatible_with, legacy_compatible_with)) => match check_compatible(
            &facts.target,
            target_compatible_with,
            legacy_compatible_with,
        ) {
            Err(e) => Err(stop(e)),
            Ok(Some(reason)) => Err(NodeStop::Incompatible(reason)),
            Ok(None) => Ok(CompatibleNode { facts }),
        },
    }
}

/// What the transitions from `i` on lead to, beside those before.
pub open spec fn transitions_resolved(
    transitions: Seq<(String, Result<String, InputError>)>,
    i: int,
    done: Seq<(Text, Text)>,
) -> Result<Seq<(Text, Text)>, Text>
    decreases transitions.len() - i,
{
    if i < 0 || i >= transitions.len() {
        Ok(done)
    } else {
        match transitions[i].1 {
            Err(e) => Err(e.deep_view()),
            Ok(cfg) => transitions_resolved(
                transitions,
                i + 1,
                placed(done, transitions[i].0@, cfg@),
            ),
        }
    }
}

/// A target whose transitions are resolved.
pub struct TransitionedNode {
    facts: NodeFacts,
    transitions: OrderedMap<String, String>,
}

impl TransitionedNode {
    /// What is known of the target.
    pub closed spec fn facts(self) -> NodeFacts {
        self.facts
    }

    /// What the transitions lead to, in order.
    pub closed spec fn transitions(self) -> Seq<(Text, Text)> {
        text_items(self.transitions)
    }
}

impl CompatibleNode {
    /// Takes in what the transitions of the target's dependencies lead to.
    pub fn resolve_transitions(self, transitions: &Vec<(String, Result<String, InputError>)>) -> (r:
        Result<TransitionedNode, NodeStop>)
        ensures
            match transitions_resolved(transitions@, 0, seq![]) {
                Err(message) => r matches Err(stop) && stop.deep_view() == stop_at(message),
                Ok(resolved) => r matches Ok(node) && node.facts() == self.facts
                    && node.transitions() == resolved,
            },
    {
        let mut resolved = new_text_map();
        let mut i: usize = 0;
        while i < transitions.len()
            invariant
                0 <= i <= transitions@.len(),
                transitions_resolved(transitions@, 0, seq![]) == transitions_resolved(
                    transitions@,
                    i as int,
                    text_items(resolved),
                ),
            decreases transitions.len() - i,
        {
            match &transitions[i].1 {
                Err(e) => {
                    return Err(stop(e.duplicate()));
                },
                Ok(cfg) => {
                    text_insert(&mut resolved, transitions[i].0.clone(), cfg.clone());
                },
            }
            i += 1;
        }
        Ok(TransitionedNode { facts: self.facts, transitions: resolved })
    }
}

/// A target whose attributes were traversed: what they ask for has to be looked
/// up.
pub struct AskingNode {
    facts: NodeFacts,
    transitions: OrderedMap<String, String>,
    traversal: Traversal,
}

impl AskingNode {
    /// What is known of the target.
    pub closed spec fn facts(self) -> NodeFacts {
        self.facts
    }

    /// What the transitions lead to, in order.
    pub closed spec fn transitions(self) -> Seq<(Text, Text)> {
        text_items(self.transitions)
    }

    /// What the attributes ask for.
    pub closed spec fn asked(self) -> TraversalModel {
        self.traversal.deep_view()
    }
}

impl TransitionedNode {
    /// Traverses the attributes.
    pub fn traverse(self, attrs: &Vec<TraversedAttr>) -> (r: Result<AskingNode, NodeStop>)
        ensures
            match traversed(attrs@, self.facts().is_bazel_rule, 0, nothing_asked()) {
                Outcome::Incompatible(reason) => r matches Err(stop) && stop.deep_view()
                    == NodeStopModel::Incompatible(reason),
                Outcome::Error(e) => r matches Err(stop) && stop.deep_view()
                    == NodeStopModel::Failed(e),
                Outcome::Compatible(asked) => r matches Ok(node) && node.facts() == self.facts()
                    && node.transitions() == self.transitions() && node.asked() == asked,
            },
    {
        match Traversal::of_attrs(attrs, self.facts.is_bazel_rule) {
            ResultMaybeCompatible::Incompatible(reason) => Err(NodeStop::Incompatible(reason)),
            ResultMaybeCompatible::Error(e) => Err(NodeStop::Failed(e)),
            ResultMaybeCompatible::Compatible(traversal) => Ok(
                AskingNode { facts: self.facts, transitions: self.transitions, traversal },
            ),
        }
    }
}

/// A target whose dependencies were taken in.
pub struct GatheringNode {
    facts: NodeFacts,
    transitions: OrderedMap<String, String>,
    traversal: Traversal,
    deps: Vec<ConfiguredTargetNode>,
    plugins: Vec<(String, String, PluginListElemKind)>,
    problems: ErrorsAndIncompatibilities,
}

impl GatheringNode {
    /// What is known of the target.
    pub closed spec fn facts(self) -> NodeFacts {
        self.facts
    }

    /// What the transitions lead to, in order.
    pub closed spec fn transitions(self) -> Seq<(Text, Text)> {
        text_items(self.transitions)
    }

    /// What the attributes ask for.
    pub closed spec fn asked(self) -> TraversalModel {
        self.traversal.deep_view()
    }

    /// The dependencies, the plugins and the problems.
    pub closed spec fn gathering(self) -> Gathering {
        Gathering {
            deps: self.deps@,
            plugins: self.plugins.deep_view(),
            problems: self.problems.deep_view(),
        }
    }

    /// The targets of the plugins that are dependencies for execution.
    pub fn plugin_exec_targets(&self) -> (r: Vec<String>)
        ensures
            r.deep_view() == plugin_targets(
                self.gathering().plugins,
                self.facts().uses_plugins.deep_view(),
            ),
    {
        plugin_exec_targets(&self.plugins, &self.facts.uses_plugins)
    }
}

impl AskingNode {
    /// The dependencies that have to be looked up, in order.
    pub fn deps(&self) -> (r: Vec<(&String, &DepUse)>)
        ensures
            r.deep_view() == self.asked().deps,
    {
        self.traversal.deps()
    }

    /// Takes in what came of the dependencies, in order.
    pub fn take_deps(self, results: Vec<DepResult>) -> (r: GatheringNode)
        requires
            results@.len() == self.asked().deps.len(),
        ensures
            r.facts() == self.facts(),
            r.transitions() == self.transitions(),
            r.asked() == self.asked(),
            r.gathering() == with_dep_results(
                self.asked().deps,
                results@,
                self.facts().partial_label(),
                0,
                (Gathering {
                    deps: seq![],
                    plugins: self.asked().plugins,
                    problems: (Problems { errs: seq![], incompats: seq![] }),
                }),
            ),
    {
        let mut problems = ErrorsAndIncompatibilities::new();
        let mut plugins = self.traversal.plugins().duplicate();
        let uses = self.traversal.deps();
        assert(uses.deep_view().len() == uses@.len());
        let target = self.facts.partial();
        let deps = gather_deps(&uses, results, &target, &mut plugins, &mut problems);
        GatheringNode {
            facts: self.facts,
            transitions: self.transitions,
            traversal: self.traversal,
            deps,
            plugins,
            problems,
        }
    }
}

/// The labels in a list, or the first error.
pub open spec fn labels_or_error(labels: Seq<Result<String, InputError>>) -> Result<Seq<Text>, Text>
    decreases labels.len(),
{
    if labels.len() == 0 {
        Ok(seq![])
    } else {
        match labels_or_error(labels.drop_last()) {
            Err(message) => Err(message),
            Ok(before) => match labels.last() {
                Err(e) => Err(e.deep_view()),
                Ok(label) => Ok(before.push(label@)),
            },
        }
    }
}

proof fn lemma_label_error(labels: Seq<Result<String, InputError>>, i: int)
    requires
        0 <= i <= labels.len(),
        labels_or_error(labels.take(i)) is Err,
    ensures
        labels_or_error(labels) == labels_or_error(labels.take(i)),
    decreases labels.len() - i,
{
    if i == labels.len() {
        assert(labels.take(i) =~= labels);
    } else {
        assert(labels.take(i + 1).drop_last() =~= labels.take(i));
        lemma_label_error(labels, i + 1);
    }
}

/// A target whose plugins are among its dependencies for execution.
pub struct PluggedNode {
    node: GatheringNode,
}

impl PluggedNode {
    /// The target so far.
    pub closed spec fn node(self) -> GatheringNode {
        self.node
    }

    /// The dependencies for execution whose visibility has to be checked, in
    /// order.
    pub fn exec_deps(&self) -> (r: Vec<(&String, &CheckVisibility)>)
        ensures
            r.deep_view() == self.node().asked().exec_deps,
    {
        self.node.traversal.exec_deps()
    }

    /// The toolchains whose visibility has to be checked, in order.
    pub fn toolchain_deps(&self) -> (r: Vec<&String>)
        ensures
            r.deep_view() == self.node().asked().toolchain_deps,
    {
        self.node.traversal.toolchain_deps()
    }
}

impl GatheringNode {
    /// Takes in the plugins that are dependencies for execution, by their labels.
    pub fn take_plugins(self, labels: &Vec<Result<String, InputError>>) -> (r: Result<
        PluggedNode,
        NodeStop,
    >)
        ensures
            match labels_or_error(labels@) {
                Err(message) => r matches Err(stop) && stop.deep_view() == stop_at(message),
                Ok(found) => r matches Ok(plugged) && plugged.node().facts() == self.facts()
                    && plugged.node().transitions() == self.transitions()
                    && plugged.node().gathering() == self.gathering() && plugged.node().asked() == (
                TraversalModel {
                    exec_deps: with_unchecked(self.asked().exec_deps, found, 0),
                    ..self.asked()
                }),
            },
    {
        let mut found: Vec<String> = Vec::new();
        let mut i: usize = 0;
        assert(found.deep_view() =~= seq![]);
        assert(labels@.take(0) =~= seq![]);
        while i < labels.len()
            invariant
                0 <= i <= labels@.len(),
                labels_or_error(labels@.take(i as int)) == Ok::<Seq<Text>, Text>(
                    found.deep_view(),
                ),
            decreases labels.len() - i,
        {
            let ghost before = found.deep_view();
            proof {
                let t = labels@.take(i + 1);
                assert(t.drop_last() =~= labels@.take(i as int));
                assert(t.last() == labels@[i as int]);
            }
            match &labels[i] {
                Err(e) => {
                    proof {
                        lemma_label_error(labels@, i + 1);
                    }
                    return Err(stop(e.duplicate()));
                },
                Ok(label) => {
                    found.push(label.clone());
                    assert(found.deep_view() =~= before.push(label@));
                },
            }
            i += 1;
        }
        assert(labels@.take(i as int) =~= labels@);
        let mut node = self;
        node.traversal.add_plugin_exec_deps(&found);
        Ok(PluggedNode { node })
    }
}

/// A target of whose dependencies for execution and toolchains those are left
/// that it may see.
pub struct GatheredNode {
    node: GatheringNode,
    gathered: GatheredDeps,
}

impl GatheredNode {
    /// The target so far.
    pub closed spec fn node(self) -> GatheringNode {
        self.node
    }

    /// What is left.
    pub closed spec fn gathered(self) -> GatheredDeps {
        self.gathered
    }

    /// The plugins, in order.
    pub fn plugins(&self) -> (r: &Vec<(String, String, PluginListElemKind)>)
        ensures
            r.deep_view() == self.node().gathering().plugins,
    {
        &self.node.plugins
    }
}

impl PluggedNode {
    /// Takes in whether the dependencies for execution and the toolchains are
    /// visible, each in order.
    pub fn check_visibility(
        self,
        exec_answers: &Vec<DepAnswer>,
        toolchain_answers: &Vec<DepAnswer>,
    ) -> (r: Result<GatheredNode, NodeStop>)
        requires
            exec_answers@.len() == self.node().asked().exec_deps.len(),
            toolchain_answers@.len() == self.node().asked().toolchain_deps.len(),
        ensures
            match exec_checked(
                self.node().asked().exec_deps,
                exec_answers@,
                self.node().facts().target.unconfigured@,
                0,
                seq![],
                self.node().gathering().problems,
            ) {
                Err(message) => r matches Err(stop) && stop.deep_view() == stop_at(message),
                Ok((exec_deps, noted)) => match toolchains_checked(
                    self.node().asked().toolchain_deps,
                    toolchain_answers@,
                    self.node().facts().target.unconfigured@,
                    0,
                    seq![],
                    noted,
                ) {
                    Err(message) => r matches Err(stop) && stop.deep_view() == stop_at(message),
                    Ok((toolchain_deps, all)) => r matches Ok(g) && g.gathered().exec_list()
                        == exec_deps && g.gathered().toolchain_list() == toolchain_deps
                        && g.node().facts() == self.node().facts() && g.node().transitions()
                        == self.node().transitions() && g.node().gathering() == (Gathering {
                        problems: all,
                        ..self.node().gathering()
                    }),
                },
            },
    {
        let mut node = self.node;
        match node.traversal.check_visibility(
            node.facts.target.unconfigured.as_str(),
            exec_answers,
            toolchain_answers,
            &mut node.problems,
        ) {
            Err(e) => Err(stop(e)),
            Ok(gathered) => Ok(GatheredNode { node, gathered }),
        }
    }
}

/// A target that is checked but for its platform for execution.
pub struct CheckedNode {
    node: GatheringNode,
    gathered: GatheredDeps,
}

/// Which platform a target is executed on: none, that of its parent, or one that
/// has to be found.
#[derive(Debug, PartialEq, Eq)]
pub enum ExecutionPlatformPlan {
    Unspecified,
    OfParent(String),
    Resolve,
}

impl GatheredNode {
    /// Takes in what is known of the plugins, in order.
    pub fn check_plugins(self, answers: &Vec<PluginAnswer>) -> (r: Result<CheckedNode, NodeStop>)
        requires
            answers@.len() == self.node().gathering().plugins.len(),
        ensures
            match plugin_problem(
                self.node().gathering().plugins,
                answers@,
                self.node().facts().target.unconfigured@,
                0,
            ) {
                Some(problem) => r matches Err(stop) && stop.deep_view()
                    == NodeStopModel::PluginFailed(problem),
                None => r matches Ok(checked) && checked.node() == self.node()
                    && checked.gathered() == self.gathered(),
            },
    {
        assert(self.node.plugins.deep_view().len() == self.node.plugins@.len());
        match check_plugin_deps(
            self.node.facts.target.unconfigured.as_str(),
            &self.node.plugins,
            answers,
        ) {
            Err(e) => Err(NodeStop::PluginFailed(e)),
            Ok(_) => Ok(CheckedNode { node: self.node, gathered: self.gathered }),
        }
    }
}

/// What the results of dependencies come to from `i` on, behind the dependencies
/// before: those that can be had, and the problems.
pub open spec fn unpacked(
    results: Seq<ResultMaybeCompatible<ConfiguredTargetNode>>,
    target: ConfiguredLabel,
    i: int,
    deps: Seq<ConfiguredTargetNode>,
    problems: Problems,
) -> (Seq<ConfiguredTargetNode>, Problems)
    decreases results.len() - i,
{
    if i < 0 || i >= results.len() {
        (deps, problems)
    } else {
        match results[i] {
            ResultMaybeCompatible::Compatible(dep) => unpacked(
                results,
                target,
                i + 1,
                deps.push(dep),
                problems,
            ),
            ResultMaybeCompatible::Incompatible(reason) => unpacked(
                results,
                target,
                i + 1,
                deps,
                problems.with_incompat(reason.deep_view().through(target.text())),
            ),
            ResultMaybeCompatible::Error(e) => unpacked(
                results,
                target,
                i + 1,
                deps,
                problems.with_err(e.deep_view()),
            ),
        }
    }
}

fn unpack_deps(
    results: Vec<ResultMaybeCompatible<ConfiguredTargetNode>>,
    target_label: &ConfiguredTargetLabel,
    deps: &mut Vec<ConfiguredTargetNode>,
    problems: &mut ErrorsAndIncompatibilities,
)
    ensures
        (final(deps)@, final(problems).deep_view()) == unpacked(
            results@,
            target_label.deep_view(),
            0,
            old(deps)@,
            old(problems).deep_view(),
        ),
{
    let ghost all = results@;
    let ghost target = target_label.deep_view();
    let ghost whole = unpacked(all, target, 0, deps@, problems.deep_view());
    for result in it: results
        invariant
            all == it.seq(),
            target == target_label.deep_view(),
            whole == unpacked(all, target, it.index(), deps@, problems.deep_view()),
    {
        problems.unpack_dep_no_visibility_into(target_label, result, deps);
    }
}

/// The configurations that the dependencies for execution have, by their labels,
/// of the first `n`.
pub open spec fn exec_cfgs(deps: Seq<ConfiguredTargetNode>, n: int) -> Seq<(Text, Text)>
    decreases n,
{
    if n <= 0 {
        seq![]
    } else {
        placed(
            exec_cfgs(deps, n - 1),
            deps[n - 1].label.unconfigured@,
            deps[n - 1].label.cfg@,
        )
    }
}

/// A target under a configuration: what its transitions lead to, its dependencies,
/// those for execution with their configurations where it has a platform for
/// execution, its toolchains and its plugins.
pub struct NodeParts {
    pub transitions: OrderedMap<String, String>,
    pub deps: Vec<ConfiguredTargetNode>,
    pub exec_deps: Vec<ConfiguredTargetNode>,
    pub exec_dep_cfgs: Option<OrderedMap<String, String>>,
    pub resolved_toolchains: Vec<(String, String)>,
    pub plugins: Vec<(String, String, PluginListElemKind)>,
}

impl NodeParts {
    /// What the transitions lead to, in order.
    pub open spec fn transition_list(self) -> Seq<(Text, Text)> {
        text_items(self.transitions)
    }

    /// The configurations of the dependencies for execution, where the target has
    /// a platform for execution.
    pub open spec fn exec_cfg_list(self) -> Option<Seq<(Text, Text)>> {
        match self.exec_dep_cfgs {
            Some(cfgs) => Some(text_items(cfgs)),
            None => None,
        }
    }

    /// What the transitions lead to, in order.
    pub fn transitions(&self) -> (r: Vec<(&String, &String)>)
        ensures
            r.deep_view() == self.transition_list(),
    {
        text_entries(&self.transitions)
    }

    /// The configurations of the dependencies for execution, where the target has
    /// a platform for execution.
    pub fn exec_dep_cfgs(&self) -> (r: Option<Vec<(&String, &String)>>)
        ensures
            r.deep_view() == self.exec_cfg_list(),
    {
        match &self.exec_dep_cfgs {
            Some(cfgs) => Some(text_entries(cfgs)),
            None => None,
        }
    }

    /// An input file, which depends on nothing.
    pub fn new_bazel_input_file_configured_target_node() -> (r: NodeParts)
        ensures
            r.transition_list().len() == 0,
            r.deps@.len() == 0,
            r.exec_deps@.len() == 0,
            r.exec_cfg_list() is None,
            r.resolved_toolchains@.len() == 0,
            r.plugins@.len() == 0,
    {
        NodeParts {
            transitions: new_text_map(),
            deps: Vec::new(),
            exec_deps: Vec::new(),
            exec_dep_cfgs: None,
            resolved_toolchains: Vec::new(),
            plugins: Vec::new(),
        }
    }
}

impl CheckedNode {
    /// The target so far.
    pub closed spec fn node(self) -> GatheringNode {
        self.node
    }

    /// The dependencies for execution and the toolchains.
    pub closed spec fn gathered(self) -> GatheredDeps {
        self.gathered
    }

    /// The dependencies for execution and the toolchains, which have to be looked
    /// up for the platform.
    pub fn gathered_deps(&self) -> (r: &GatheredDeps)
        ensures
            *r == self.gathered(),
    {
        &self.gathered
    }

    /// Which platform the target is executed on: none where its configuration is
    /// unbound, that of its parent where it has one from there.
    pub fn execution_platform_plan(&self) -> (r: ExecutionPlatformPlan)
        ensures
            ({
                let facts = self.node().facts();
                if facts.is_unbound {
                    r is Unspecified
                } else {
                    match facts.target.deep_view().exec_cfg {
                        Some(cfg) => r matches ExecutionPlatformPlan::OfParent(found) && found@
                            == cfg,
                        None => r is Resolve,
                    }
                }
            }),
    {
        if self.node.facts.is_unbound {
            return ExecutionPlatformPlan::Unspecified;
        }
        match &self.node.facts.target.exec_cfg {
            Some(cfg) => ExecutionPlatformPlan::OfParent(cfg.clone()),
            None => ExecutionPlatformPlan::Resolve,
        }
    }

    /// Takes in what came of the toolchains, of the dependencies for execution and
    /// of the Bazel toolchains, and ends the computation: with the last reason or
    /// error that was noted, or with the target.
    pub fn finish(
        self,
        toolchain_results: Vec<ResultMaybeCompatible<ConfiguredTargetNode>>,
        exec_results: Vec<ResultMaybeCompatible<ConfiguredTargetNode>>,
        bazel_toolchains: Result<(Vec<ConfiguredTargetNode>, Vec<(String, String)>), InputError>,
    ) -> (r: Result<NodeParts, NodeStop>)
        ensures
            ({
                let target = self.node().facts().partial_label();
                let before = self.node().gathering();
                let (deps, noted) = unpacked(
                    toolchain_results@,
                    target,
                    0,
                    before.deps,
                    before.problems,
                );
                let (exec_deps, all) = unpacked(exec_results@, target, 0, seq![], noted);
                match bazel_toolchains {
                    Err(e) => r matches Err(stop) && stop.deep_view() == stop_at(e.deep_view()),
                    Ok((bazel_deps, resolved)) => if all.incompats.len() > 0 {
                        r matches Err(stop) && stop.deep_view() == NodeStopModel::Incompatible(
                            all.incompats.last(),
                        )
                    } else if all.errs.len() > 0 {
                        r matches Err(stop) && stop.deep_view() == NodeStopModel::Failed(
                            all.errs.last(),
                        )
                    } else {
                        r matches Ok(parts) && parts.transition_list() == self.node().transitions()
                            && parts.deps@ == deps + bazel_deps@ && parts.exec_deps@ == exec_deps
                            && parts.exec_cfg_list() == (if self.node().facts().is_unbound {
                            None
                        } else {
                            Some(exec_cfgs(exec_deps, exec_deps.len() as int))
                        }) && parts.resolved_toolchains == resolved && parts.plugins.deep_view()
                            == before.plugins
                    },
                }
            }),
    {
        let node = self.node;
        let target = node.facts.partial();
        let mut deps = node.deps;
        let mut exec_deps: Vec<ConfiguredTargetNode> = Vec::new();
        let mut problems = node.problems;
        unpack_deps(toolchain_results, &target, &mut deps, &mut problems);
        unpack_deps(exec_results, &target, &mut exec_deps, &mut problems);
        let (bazel_deps, resolved_toolchains) = match bazel_toolchains {
            Ok(found) => found,
            Err(e) => {
                return Err(stop(e));
            },
        };
        let mut bazel_deps = bazel_deps;
        deps.append(&mut bazel_deps);
        let exec_dep_cfgs = if node.facts.is_unbound {
            None
        } else {
            Some(cfgs_of(&exec_deps))
        };
        match problems.finalize() {
            ResultMaybeCompatible::Incompatible(reason) => Err(NodeStop::Incompatible(reason)),
            ResultMaybeCompatible::Error(e) => Err(NodeStop::Failed(e)),
            ResultMaybeCompatible::Compatible(_) => Ok(
                NodeParts {
                    transitions: node.transitions,
                    deps,
                    exec_deps,
                    exec_dep_cfgs,
                    resolved_toolchains,
                    plugins: node.plugins,
                },
            ),
        }
    }
}

fn cfgs_of(exec_deps: &Vec<ConfiguredTargetNode>) -> (r: OrderedMap<String, String>)
    ensures
        text_items(r) == exec_cfgs(exec_deps@, exec_deps@.len() as int),
{
    let mut cfgs = new_text_map();
    let mut i: usize = 0;
    while i < exec_deps.len()
        invariant
            0 <= i <= exec_deps@.len(),
            text_items(cfgs) == exec_cfgs(exec_deps@, i as int),
        decreases exec_deps.len() - i,
    {
        let label = &exec_deps[i].label;
        text_insert(&mut cfgs, label.unconfigured.clone(), label.cfg.clone());
        i += 1;
    }
    cfgs
}

/// The configuration of a dependency for execution is that of the last dependency of its
/// label.
pub proof fn law_exec_configurations(deps: Seq<ConfiguredTargetNode>, n: int, k: int)
    requires
        0 <= k < n <= deps.len(),
        forall|j: int|
            k < j < n ==> (#[trigger] deps[j]).label.unconfigured@ != deps[k].label.unconfigured@,
    ensures
        lookup(exec_cfgs(deps, n), deps[k].label.unconfigured@) == Some(deps[k].label.cfg@),
    decreases n,
{
    let last = deps[n - 1].label;
    law_lookup_placed(
        exec_cfgs(deps, n - 1),
        last.unconfigured@,
        last.cfg@,
        deps[k].label.unconfigured@,
    );
    if k < n - 1 {
        law_exec_configurations(deps, n - 1, k);
    }
}

/// Of results that were looked up, those that can be had are taken in order; there are new
/// problems exactly where one cannot.
pub proof fn law_results_unpacked(
    results: Seq<ResultMaybeCompatible<ConfiguredTargetNode>>,
    target: ConfiguredLabel,
    i: int,
    deps: Seq<ConfiguredTargetNode>,
    problems: Problems,
)
    requires
        0 <= i <= results.len(),
    ensures
        ({
            let (all, after) = unpacked(results, target, i, deps, problems);
            &&& (forall|j: int| i <= j < results.len() ==> #[trigger] results[j] is Compatible)
                ==> after == problems && all.len() == deps.len() + results.len() - i && forall|
                j: int,
            |
                i <= j < results.len() ==> all[deps.len() + j - i] == (
                #[trigger] results[j])->Compatible_0
            &&& forall|j: int| 0 <= j < deps.len() ==> #[trigger] all[j] == deps[j]
            &&& deps.len() <= all.len()
            &&& after.errs.len() + after.incompats.len() + all.len() == problems.errs.len()
                + problems.incompats.len() + deps.len() + results.len() - i
        }),
    decreases results.len() - i,
{
    if i < results.len() {
        match results[i] {
            ResultMaybeCompatible::Compatible(dep) => {
                let next = deps.push(dep);
                law_results_unpacked(results, target, i + 1, next, problems);
                let (all, after) = unpacked(results, target, i, deps, problems);
                assert(all[deps.len() as int] == next[deps.len() as int]);
                assert forall|j: int| 0 <= j < deps.len() implies #[trigger] all[j] == deps[j] by {
                    assert(all[j] == next[j]);
                }
                if forall|j: int| i <= j < results.len() ==> #[trigger] results[j] is Compatible {
                    assert forall|j: int| i <= j < results.len() implies all[deps.len() + j - i]
                        == (#[trigger] results[j])->Compatible_0 by {
                        if j > i {
                            assert(next.len() + j - (i + 1) == deps.len() + j - i);
                        }
                    }
                }
            },
            ResultMaybeCompatible::Incompatible(reason) => {
                law_results_unpacked(
                    results,
                    target,
                    i + 1,
                    deps,
                    problems.with_incompat(reason.deep_view().through(target.text())),
                );
                assert(!(results[i] is Compatible));
            },
            ResultMaybeCompatible::Error(e) => {
                law_results_unpacked(
                    results,
                    target,
                    i + 1,
                    deps,
                    problems.with_err(e.deep_view()),
                );
                assert(!(results[i] is Compatible));
            },
        }
    }
}

/// A target is executed on no platform where its configuration is unbound, on that of its
/// parent where it has one from there, and else on one that is looked for.
pub proof fn law_execution_platform(node: CheckedNode, plan: ExecutionPlatformPlan)
    requires
        call_ensures(CheckedNode::execution_platform_plan, (&node,), plan),
    ensures
        plan is Unspecified <==> node.node().facts().is_unbound,
        plan is OfParent <==> !node.node().facts().is_unbound
            && node.node().facts().target.exec_cfg is Some,
        plan matches ExecutionPlatformPlan::OfParent(cfg) ==> cfg@
            == node.node().facts().target.exec_cfg->0@,
{
}

/// What a transition leads to is the last configuration that was found for it; one that
/// failed stops the target.
pub proof fn law_transitions_resolved(
    transitions: Seq<(String, Result<String, InputError>)>,
    i: int,
    done: Seq<(Text, Text)>,
    id: Text,
)
    requires
        0 <= i <= transitions.len(),
    ensures
        transitions_resolved(transitions, i, done) is Err <==> exists|j: int|
            i <= j < transitions.len() && (#[trigger] transitions[j]).1 is Err,
        transitions_resolved(transitions, i, done) matches Ok(out) ==> {
            &&& (forall|j: int| i <= j < transitions.len() ==> (#[trigger] transitions[j]).0@ != id)
                ==> lookup(out, id) == lookup(done, id)
            &&& forall|k: int|
                i <= k < transitions.len() && (#[trigger] transitions[k]).0@ == id && (forall|j: int|
                    k < j < transitions.len() ==> (#[trigger] transitions[j]).0@ != id) ==> lookup(
                    out,
                    id,
                ) == Some(transitions[k].1->Ok_0@)
        },
    decreases transitions.len() - i,
{
    if i < transitions.len() {
        match transitions[i].1 {
            Err(_) => {
                assert(transitions[i].1 is Err);
            },
            Ok(cfg) => {
                law_lookup_placed(done, transitions[i].0@, cfg@, id);
                law_transitions_resolved(
                    transitions,
                    i + 1,
                    placed(done, transitions[i].0@, cfg@),
                    id,
                );
            },
        }
    }
}

} // verus!
