use bazel_compat::attr_traversal::{
    plugin_exec_targets, AttrUse, ConfiguredTargetNode, DepResult, TraversedAttr,
};
use bazel_compat::attrs::{CoercedAttr, ConfiguredAttr, ProvidersLabel};
use bazel_compat::configured_nodes::{
    label_after_transition, label_on_bazel_platform, CompatibleWith, ConfiguredTargetLabel,
};
use bazel_compat::gather_deps::{
    DepAnswer, PluginAnswer, PluginDepError, PluginListElemKind, Traversal,
};
use bazel_compat::module::InputError;
use bazel_compat::node_stages::{
    lookup_error, start_configured_node, AskingNode, CheckedNode, ExecutionPlatformPlan, NodeFacts,
    NodeParts, NodeStop,
};
use bazel_compat::ordered::KeyMap;
use bazel_compat::toolchains::{
    compute_registered_bazel_toolchain_nodes, registered_toolchain_pattern, KnownTarget,
    RegisteredPattern, RegisteredTarget, TargetStop,
};
use bazel_compat::transition_inputs::{
    resolve_transition_input_attrs, InputAttr, TransitionAttrs, TransitionInput,
};
use bazel_compat::visibility::{
    CheckVisibility, IncompatiblePlatformReason, IncompatiblePlatformReasonCause, NodeError,
    ResultMaybeCompatible,
};

fn text(s: &str) -> String {
    s.to_owned()
}

fn error(message: &str) -> InputError {
    InputError {
        message: message.to_owned(),
    }
}

fn compatible<T>(result: ResultMaybeCompatible<T>) -> T {
    match result {
        ResultMaybeCompatible::Compatible(value) => value,
        ResultMaybeCompatible::Incompatible(reason) => panic!("{reason:?}"),
        ResultMaybeCompatible::Error(e) => panic!("{e:?}"),
    }
}

fn outcome<T>(result: ResultMaybeCompatible<T>) -> ResultMaybeCompatible<()> {
    match result {
        ResultMaybeCompatible::Compatible(_) => ResultMaybeCompatible::Compatible(()),
        ResultMaybeCompatible::Incompatible(reason) => ResultMaybeCompatible::Incompatible(reason),
        ResultMaybeCompatible::Error(e) => ResultMaybeCompatible::Error(e),
    }
}

fn failed<T>(message: &str) -> ResultMaybeCompatible<T> {
    ResultMaybeCompatible::Error(NodeError::Other(error(message)))
}

fn no_choice(message: &str) -> IncompatiblePlatformReason {
    IncompatiblePlatformReason {
        targets: vec![text("//:t (c)")],
        cause: IncompatiblePlatformReasonCause::SelectIncompatible(text(message)),
    }
}

fn label(name: &str, cfg: &str) -> ConfiguredTargetLabel {
    ConfiguredTargetLabel {
        unconfigured: name.to_owned(),
        cfg: cfg.to_owned(),
        exec_cfg: None,
    }
}

fn node(name: &str, cfg: &str) -> ConfiguredTargetNode {
    ConfiguredTargetNode {
        label: label(name, cfg),
        plugin_lists: vec![(text("k"), vec![(text("//:far"), PluginListElemKind::Direct)])],
    }
}

fn attr(name: &str, uses: Vec<AttrUse>, value: ConfiguredAttr) -> TraversedAttr {
    TraversedAttr {
        name: name.to_owned(),
        implicit_package: Ok(None),
        configured: ResultMaybeCompatible::Compatible(value),
        uses: Ok(uses),
    }
}

fn no_value() -> ConfiguredAttr {
    ConfiguredAttr::Other(text("x"))
}

#[test]
fn attributes_are_traversed_in_order() {
    let mut hidden = attr("_hidden", vec![AttrUse::Dep(text("h"))], no_value());
    hidden.implicit_package = Ok(Some(text("p")));
    let attrs = vec![
        attr(
            "deps",
            vec![
                AttrUse::Dep(text("b")),
                AttrUse::DepWithPlugins(text("a"), vec![(text("k"), true)]),
                AttrUse::ExecDep(text("e")),
                AttrUse::ToolchainDep(text("t")),
                AttrUse::PluginDep {
                    dep: text("g"),
                    kind: text("k"),
                },
            ],
            no_value(),
        ),
        hidden,
        attr("toolchains", Vec::new(), ConfiguredAttr::Label(text("v"))),
    ];
    let names = |traversal: &Traversal| {
        traversal
            .deps()
            .iter()
            .map(|(name, _)| name.to_string())
            .collect::<Vec<_>>()
    };
    let plain = compatible(Traversal::of_attrs(&attrs, false));
    assert_eq!(names(&plain), vec!["b", "a", "h"]);
    assert_eq!(
        plain.deps()[2].1.check,
        CheckVisibility::OrPackages(vec![text("p")])
    );
    let bazel = compatible(Traversal::of_attrs(&attrs, true));
    assert_eq!(names(&bazel), vec!["b", "a", "h", "v"]);
    assert_eq!(bazel.toolchain_deps(), vec!["t"]);
}

#[test]
fn attributes_that_cannot_be_traversed_are_named() {
    let mut bad = attr("deps", Vec::new(), no_value());
    bad.uses = Err(error("boom"));
    assert_eq!(
        outcome(Traversal::of_attrs(&vec![bad], false)),
        failed("traversing attribute `deps`: boom")
    );
    let mut bad = attr("deps", Vec::new(), no_value());
    bad.configured = failed("no value");
    assert_eq!(
        outcome(Traversal::of_attrs(&vec![bad], false)),
        failed("no value")
    );
    let mut bad = attr("deps", Vec::new(), no_value());
    bad.implicit_package = Err(error("no package"));
    assert_eq!(
        outcome(Traversal::of_attrs(&vec![bad], false)),
        failed("no package")
    );
}

#[test]
fn the_first_attribute_without_a_value_decides() {
    let without = |name: &str, message: &str| {
        let mut attr = attr(name, Vec::new(), no_value());
        attr.configured = ResultMaybeCompatible::Incompatible(no_choice(message));
        attr
    };
    let unread = || {
        let mut attr = attr("deps", Vec::new(), no_value());
        attr.configured = failed("no value");
        attr
    };
    let plain = || attr("name", Vec::new(), no_value());
    assert_eq!(
        outcome(Traversal::of_attrs(
            &vec![plain(), without("a", "first"), unread(), without("b", "second")],
            false,
        )),
        ResultMaybeCompatible::Incompatible(no_choice("first"))
    );
    assert_eq!(
        outcome(Traversal::of_attrs(&vec![plain(), unread(), without("a", "first")], false)),
        failed("no value")
    );
    let mut hidden = without("a", "first");
    hidden.implicit_package = Err(error("no package"));
    assert_eq!(outcome(Traversal::of_attrs(&vec![hidden], false)), failed("no package"));
    let mut broken = without("a", "first");
    broken.uses = Err(error("boom"));
    assert_eq!(
        outcome(Traversal::of_attrs(&vec![broken], false)),
        ResultMaybeCompatible::Incompatible(no_choice("first"))
    );
}

#[test]
fn targets_stop_where_an_attribute_has_no_value_on_the_platform() {
    let started = || {
        start_configured_node(facts(false, None), &Ok((None, None)))
            .ok()
            .unwrap()
            .resolve_transitions(&Vec::new())
            .ok()
            .unwrap()
    };
    let mut without = attr("deps", Vec::new(), no_value());
    without.configured = ResultMaybeCompatible::Incompatible(no_choice("no os"));
    assert_eq!(
        started().traverse(&vec![without]).err(),
        Some(NodeStop::Incompatible(no_choice("no os")))
    );
    let mut unseen = attr("deps", Vec::new(), no_value());
    unseen.configured =
        ResultMaybeCompatible::Error(NodeError::NotVisibleTo(text("//:d"), text("//:t")));
    assert_eq!(
        started().traverse(&vec![unseen]).err(),
        Some(NodeStop::Failed(NodeError::NotVisibleTo(text("//:d"), text("//:t"))))
    );
}

#[test]
fn targets_that_cannot_be_looked_up_are_named() {
    assert_eq!(
        lookup_error("//:t", &error("gone")),
        error("looking up unconfigured target node `//:t`: gone")
    );
}

fn facts(is_unbound: bool, exec_cfg: Option<&str>) -> NodeFacts {
    let mut target = label("//:t", "c");
    target.exec_cfg = exec_cfg.map(str::to_owned);
    NodeFacts {
        target,
        is_bazel_rule: false,
        is_unbound,
        uses_plugins: vec![text("k")],
    }
}

fn asking(facts: NodeFacts) -> AskingNode {
    let attrs = vec![attr(
        "deps",
        vec![
            AttrUse::DepWithPlugins(text("//:a (c)"), vec![(text("k"), true)]),
            AttrUse::Dep(text("//:b (c)")),
            AttrUse::ExecDep(text("//:e (c)")),
            AttrUse::ToolchainDep(text("//:tool (c)")),
            AttrUse::PluginDep {
                dep: text("//:near"),
                kind: text("k"),
            },
        ],
        no_value(),
    )];
    start_configured_node(facts, &Ok((None, None)))
        .ok()
        .unwrap()
        .resolve_transitions(&vec![
            (text("tr"), Ok(text("first"))),
            (text("other"), Ok(text("second"))),
            (text("tr"), Ok(text("third"))),
        ])
        .ok()
        .unwrap()
        .traverse(&attrs)
        .ok()
        .unwrap()
}

fn known(visible: bool) -> DepAnswer {
    DepAnswer::Known {
        unconfigured: text("//:u"),
        visible: Ok(visible),
    }
}

fn checked(facts: NodeFacts, second: ResultMaybeCompatible<ConfiguredTargetNode>) -> CheckedNode {
    let asking = asking(facts);
    assert_eq!(asking.deps().len(), 2);
    let gathering = asking.take_deps(vec![
        DepResult {
            result: ResultMaybeCompatible::Compatible(node("//:a", "c")),
            visible: Ok(true),
        },
        DepResult {
            result: second,
            visible: Ok(true),
        },
    ]);
    assert_eq!(gathering.plugin_exec_targets(), vec!["//:near", "//:far"]);
    let plugged = gathering
        .take_plugins(&vec![Ok(text("//:near (c)")), Ok(text("//:far (c)"))])
        .ok()
        .unwrap();
    let exec: Vec<String> = plugged
        .exec_deps()
        .iter()
        .map(|(name, _)| name.to_string())
        .collect();
    assert_eq!(exec, vec!["//:e (c)", "//:near (c)", "//:far (c)"]);
    assert_eq!(plugged.toolchain_deps(), vec!["//:tool (c)"]);
    let gathered = plugged
        .check_visibility(
            &vec![known(true), known(false), known(false)],
            &vec![known(true)],
        )
        .ok()
        .unwrap();
    assert_eq!(gathered.plugins().len(), 2);
    let answer = || PluginAnswer::Known {
        is_toolchain_rule: false,
        visible: Ok(true),
    };
    gathered
        .check_plugins(&vec![answer(), answer()])
        .ok()
        .unwrap()
}

fn parts(checked: CheckedNode) -> Result<NodeParts, NodeStop> {
    checked.finish(
        vec![ResultMaybeCompatible::Compatible(node_of("//:tool"))],
        vec![ResultMaybeCompatible::Compatible(node("//:e", "exec"))],
        Ok((vec![node_of("//:cc")], vec![(text("//:cc_type"), text("//:cc"))])),
    )
}

fn node_of(name: &str) -> ConfiguredTargetNode {
    node(name, "c")
}

#[test]
fn targets_are_computed_in_stages() {
    let node = checked(
        facts(false, None),
        ResultMaybeCompatible::Compatible(node_of("//:b")),
    );
    assert_eq!(node.execution_platform_plan(), ExecutionPlatformPlan::Resolve);
    assert_eq!(node.gathered_deps().toolchain_deps(), vec!["//:tool (c)"]);
    let parts = parts(node).ok().unwrap();
    let names = |nodes: &Vec<ConfiguredTargetNode>| {
        nodes
            .iter()
            .map(|node| node.label.unconfigured.clone())
            .collect::<Vec<_>>()
    };
    assert_eq!(names(&parts.deps), vec!["//:a", "//:b", "//:tool", "//:cc"]);
    assert_eq!(names(&parts.exec_deps), vec!["//:e"]);
    assert_eq!(
        parts.transitions(),
        vec![
            (&text("tr"), &text("third")),
            (&text("other"), &text("second"))
        ]
    );
    assert_eq!(
        parts.exec_dep_cfgs(),
        Some(vec![(&text("//:e"), &text("exec"))])
    );
    assert_eq!(
        parts.plugins,
        vec![
            (text("k"), text("//:near"), PluginListElemKind::Direct),
            (text("k"), text("//:far"), PluginListElemKind::Propagate),
        ]
    );
    assert_eq!(parts.resolved_toolchains.len(), 1);
}

#[test]
fn platforms_for_execution_come_from_parents_or_are_found() {
    let compatible = || ResultMaybeCompatible::Compatible(node_of("//:b"));
    let unbound = checked(facts(true, Some("parent")), compatible());
    assert_eq!(
        unbound.execution_platform_plan(),
        ExecutionPlatformPlan::Unspecified
    );
    assert!(parts(unbound).ok().unwrap().exec_dep_cfgs().is_none());
    let of_parent = checked(facts(false, Some("parent")), compatible());
    assert_eq!(
        of_parent.execution_platform_plan(),
        ExecutionPlatformPlan::OfParent(text("parent"))
    );
}

#[test]
fn problems_stop_a_target_at_the_end() {
    let reason = IncompatiblePlatformReason {
        targets: vec![text("//:b (c)")],
        cause: IncompatiblePlatformReasonCause::UnsatisfiedConfig(text("//:linux")),
    };
    let node = checked(
        facts(false, Some("parent")),
        ResultMaybeCompatible::Incompatible(reason),
    );
    assert_eq!(
        parts(node).err(),
        Some(NodeStop::Incompatible(IncompatiblePlatformReason {
            targets: vec![text("//:t (c)"), text("//:b (c)")],
            cause: IncompatiblePlatformReasonCause::UnsatisfiedConfig(text("//:linux")),
        }))
    );
    let node = checked(
        facts(false, None),
        ResultMaybeCompatible::Error(NodeError::Other(error("gone"))),
    );
    assert_eq!(
        parts(node).err(),
        Some(NodeStop::Failed(NodeError::Other(error("gone"))))
    );
    let node = checked(
        facts(false, None),
        ResultMaybeCompatible::Error(NodeError::Other(error("gone"))),
    );
    assert_eq!(
        node.finish(Vec::new(), Vec::new(), Err(error("no toolchain"))).err(),
        Some(NodeStop::Failed(NodeError::Other(error("no toolchain"))))
    );
}

#[test]
fn stages_stop_at_errors() {
    assert_eq!(
        start_configured_node(facts(false, None), &Err(error("x"))).err(),
        Some(NodeStop::Failed(NodeError::Other(error(
            "Error resolving configuration deps of `//:t (c)`: x"
        ))))
    );
    let settings = Some(CompatibleWith::List(vec![Ok((text("//:linux"), false))]));
    assert_eq!(
        start_configured_node(facts(false, None), &Ok((settings, None))).err(),
        Some(NodeStop::Incompatible(IncompatiblePlatformReason {
            targets: vec![text("//:t (c)")],
            cause: IncompatiblePlatformReasonCause::UnsatisfiedConfig(text("//:linux")),
        }))
    );
    let compatible = start_configured_node(facts(false, None), &Ok((None, None)))
        .ok()
        .unwrap();
    assert_eq!(
        compatible
            .resolve_transitions(&vec![(text("tr"), Err(error("no cfg")))])
            .err(),
        Some(NodeStop::Failed(NodeError::Other(error("no cfg"))))
    );
    let results = || {
        vec![
            DepResult {
                result: ResultMaybeCompatible::Compatible(node_of("//:a")),
                visible: Ok(false),
            },
            DepResult {
                result: ResultMaybeCompatible::Compatible(node_of("//:b")),
                visible: Err(error("unknown")),
            },
        ]
    };
    let gathering = asking(facts(false, None)).take_deps(results());
    assert_eq!(gathering.plugin_exec_targets(), vec!["//:near"]);
    assert_eq!(
        gathering.take_plugins(&vec![Err(error("no label"))]).err(),
        Some(NodeStop::Failed(NodeError::Other(error("no label"))))
    );
    let plugged = asking(facts(false, None))
        .take_deps(results())
        .take_plugins(&Vec::new())
        .ok()
        .unwrap();
    let gathered = plugged
        .check_visibility(&vec![known(true)], &vec![known(true)])
        .ok()
        .unwrap();
    assert_eq!(
        gathered
            .check_plugins(&vec![PluginAnswer::Known {
                is_toolchain_rule: true,
                visible: Ok(true),
            }])
            .err(),
        Some(NodeStop::PluginFailed(PluginDepError::IsToolchainRule(text(
            "//:near"
        ))))
    );
    let file = NodeParts::new_bazel_input_file_configured_target_node();
    assert!(file.deps.is_empty() && file.exec_deps.is_empty() && file.plugins.is_empty());
    assert!(file.exec_dep_cfgs().is_none());
}

#[test]
fn plugins_are_listed_by_kinds() {
    let plugins = vec![
        (text("k"), text("a"), PluginListElemKind::Direct),
        (text("j"), text("b"), PluginListElemKind::Direct),
        (text("k"), text("c"), PluginListElemKind::Propagate),
    ];
    assert_eq!(
        plugin_exec_targets(&plugins, &vec![text("j"), text("k")]),
        vec!["b", "a", "c"]
    );
}

#[test]
fn transitions_ask_for_each_attribute_once() {
    let input = |name: &str, coerced: CoercedAttr| InputAttr {
        name: name.to_owned(),
        coerced,
        configured: ResultMaybeCompatible::Compatible(format!("{name}!")),
    };
    let attrs = vec![
        input("a", CoercedAttr::Bool(true)),
        input("b", CoercedAttr::Dep(ProvidersLabel::default_for("x"))),
        input("c", CoercedAttr::SourceFile(text("f"))),
    ];
    let names = |transitions: Vec<TransitionAttrs>| {
        let transitions = transitions
            .into_iter()
            .map(|attrs| TransitionInput {
                requires_post_transition_attr_check: attrs == TransitionAttrs::All,
                attrs,
            })
            .collect();
        let found =
            compatible(resolve_transition_input_attrs(&transitions, &attrs, &Vec::new()));
        let names: Vec<String> = found.entries().iter().map(|(name, _)| name.to_string()).collect();
        (names, found.requires_post_transition_attr_check)
    };
    assert_eq!(names(vec![TransitionAttrs::All]), (vec![text("a")], true));
    assert_eq!(
        names(vec![TransitionAttrs::BazelAll]),
        (vec![text("a"), text("b")], false)
    );
    assert_eq!(
        names(vec![
            TransitionAttrs::Nothing,
            TransitionAttrs::Listed(vec![text("c"), text("missing"), text("c")]),
            TransitionAttrs::All,
        ]),
        (vec![text("c"), text("a")], true)
    );
    let mut bad = input("a", CoercedAttr::Bool(true));
    bad.configured = failed("no value");
    let transitions = vec![TransitionInput {
        attrs: TransitionAttrs::All,
        requires_post_transition_attr_check: false,
    }];
    assert_eq!(
        outcome(resolve_transition_input_attrs(&transitions, &vec![bad], &Vec::new())),
        failed("no value")
    );
    let listed = vec![TransitionInput {
        attrs: TransitionAttrs::Listed(vec![text("a"), text("gone")]),
        requires_post_transition_attr_check: false,
    }];
    assert_eq!(
        outcome(resolve_transition_input_attrs(
            &listed,
            &attrs,
            &vec![(text("gone"), error("unread"))],
        )),
        failed("unread")
    );
}

#[test]
fn transitions_stop_at_the_first_attribute_without_a_value() {
    let input = |name: &str, configured: ResultMaybeCompatible<String>| InputAttr {
        name: name.to_owned(),
        coerced: CoercedAttr::SelectIncompatible(text("m")),
        configured,
    };
    let attrs = vec![
        input("a", ResultMaybeCompatible::Compatible(text("1"))),
        input("b", ResultMaybeCompatible::Incompatible(no_choice("no b"))),
        input("c", failed("no value")),
        input("d", ResultMaybeCompatible::Incompatible(no_choice("no d"))),
    ];
    let resolve = |transitions: Vec<TransitionAttrs>| {
        let transitions = transitions
            .into_iter()
            .map(|attrs| TransitionInput {
                attrs,
                requires_post_transition_attr_check: true,
            })
            .collect();
        outcome(resolve_transition_input_attrs(&transitions, &attrs, &Vec::new()))
    };
    let listed = |names: &[&str]| {
        TransitionAttrs::Listed(names.iter().map(|name| name.to_string()).collect())
    };
    let without = |message: &str| ResultMaybeCompatible::Incompatible(no_choice(message));
    assert_eq!(resolve(vec![TransitionAttrs::All]), without("no b"));
    assert_eq!(resolve(vec![TransitionAttrs::BazelAll]), without("no b"));
    assert_eq!(resolve(vec![listed(&["a", "d", "b"])]), without("no d"));
    assert_eq!(resolve(vec![listed(&["a", "c", "d"])]), failed("no value"));
    assert_eq!(
        resolve(vec![listed(&["a"]), listed(&["a", "d"]), TransitionAttrs::All]),
        without("no d")
    );
    assert_eq!(
        resolve(vec![listed(&["a"]), TransitionAttrs::Nothing]),
        ResultMaybeCompatible::Compatible(())
    );
    assert_eq!(
        resolve(vec![listed(&["b"]), TransitionAttrs::Unknown(error("no transition"))]),
        without("no b")
    );
    assert_eq!(
        resolve(vec![TransitionAttrs::Unknown(error("no transition")), listed(&["b"])]),
        failed("no transition")
    );
}

#[test]
fn transitions_lead_to_other_labels_or_nowhere() {
    assert_eq!(label_after_transition(&label("//:t", "c"), "c"), None);
    assert_eq!(
        label_after_transition(&label("//:t", "c"), "d"),
        Some(label("//:t", "d"))
    );
    let mut with_exec = label("//:t", "c");
    with_exec.exec_cfg = Some(text("e"));
    assert_eq!(
        label_after_transition(&with_exec, "c"),
        Some(label("//:t", "c"))
    );
    assert_eq!(label_on_bazel_platform(&with_exec, "c"), None);
    let mut moved = label("//:t", "p");
    moved.exec_cfg = Some(text("e"));
    assert_eq!(label_on_bazel_platform(&with_exec, "p"), Some(moved));
}

#[test]
fn registered_toolchains_are_found_by_their_types() {
    let target = |rule_type: &str, toolchain_type: Option<&str>| RegisteredTarget {
        rule_type: rule_type.to_owned(),
        toolchain_type: toolchain_type.map(|label| CoercedAttr::Label(ProvidersLabel::default_for(label))),
    };
    let targets = vec![
        target("rules.bzl:filegroup", Some("//:type")),
        target("toolchain", None),
        target("rules.bzl:toolchain", Some("@//:alias")),
        target("toolchain", Some("@@//:type")),
    ];
    let mut known = KeyMap::new();
    assert_eq!(
        compute_registered_bazel_toolchain_nodes(&targets, &known),
        Err(TargetStop::NeedsTarget(text("@//:alias")))
    );
    known.insert(
        text("@//:alias"),
        KnownTarget::Target {
            rule_type: text("alias"),
            actual: Some(CoercedAttr::Dep(ProvidersLabel::default_for("@//:type"))),
        },
    );
    for name in ["@//:type", "@@//:type"] {
        known.insert(
            name.to_owned(),
            KnownTarget::Target {
                rule_type: text("toolchain_type"),
                actual: None,
            },
        );
    }
    assert_eq!(
        compute_registered_bazel_toolchain_nodes(&targets, &known),
        Ok(vec![(text("//:type"), 2), (text("//:type"), 3)])
    );
    let pattern = |name: &str| RegisteredPattern::Target {
        package: text("//p"),
        name: name.to_owned(),
    };
    assert_eq!(
        registered_toolchain_pattern(pattern("all")),
        RegisteredPattern::Package(text("//p"))
    );
    assert_eq!(registered_toolchain_pattern(pattern("one")), pattern("one"));
}
