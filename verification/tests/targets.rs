use bazel_compat::attrs::{
    attr_bool, attr_configuration_setting_keys, attr_target_label, attr_target_labels,
    coerced_attr_can_be_bazel_transition_attr, coerced_attr_can_be_transition_attr,
    configured_attr_labels,
    is_bazel_default_make_variable_attribute, CoercedAttr, ConfiguredAttr, ProvidersLabel,
};
use bazel_compat::build_settings::{
    apply_bazel_command_line_build_settings, bazel_build_setting_label_keys,
    bazel_command_line_build_settings, bazel_config_lines, push_bazel_build_setting,
    BazelBuildSettingValue,
};
use bazel_compat::configured_nodes::{
    check_compatible, check_error_on_incompatible_dep, check_transitioned_node,
    configured_target_node_plan, get_dep_only_incompatible_custom_soft_error,
    incompatible_outcome, verify_transitioned_attrs, CompatibleWith, ConfiguredTargetLabel,
    ConfiguredTargetNodeKey, IncomingTransition, IncompatibleOutcome,
    LookingUpConfiguredNodeContext, NodePlan, TransitionedAttr,
};
use bazel_compat::gather_deps::{
    check_plugin_deps, propagate_plugins, DepAnswer, PluginAnswer, PluginDepError,
    PluginListElemKind, Traversal,
};
use bazel_compat::module::InputError;
use bazel_compat::ordered::{Duplicate, KeyMap};
use bazel_compat::package_groups::{
    bazel_package_group_visibility_labels, bazel_package_groups_allow, GroupsAnswer, KnownGroup,
    VisibilityPattern,
};
use bazel_compat::platforms::{
    apply_bazel_platform_cfg_to_bazel_rule, bazel_platform_configuration, bazel_platform_names,
    bazel_platform_target, bazel_platform_targets_from_setting, ConfigurationDataData,
    PlatformNames,
};
use bazel_compat::toolchains::{
    bazel_rule_kind_is, bazel_toolchain_implementation_label, bazel_toolchain_keys_match,
    compute_bazel_single_toolchain_resolution, configuration_settings_match,
    is_bazel_relative_target_shorthand, normalize_bazel_toolchain_key, parse_bazel_nodep_label,
    platform_contains_constraint_values, platform_contains_platform_constraints,
    registered_toolchain_patterns, resolve_bazel_alias, resolve_bazel_toolchain_deps,
    resolve_bazel_toolchain_type_alias, toolchain_constraints_match, DeclaredToolchains,
    KnownTarget, TargetStop, ToolchainCandidate, ToolchainNode,
};
use bazel_compat::visibility::{
    target_node_dependency_is_visible, CheckVisibility, ErrorsAndIncompatibilities,
    IncompatiblePlatformReason, IncompatiblePlatformReasonCause, NodeError, ResultMaybeCompatible,
    VisibilityAnswers,
};

fn error(message: &str) -> InputError {
    InputError {
        message: message.to_owned(),
    }
}

fn text(s: &str) -> String {
    s.to_owned()
}

fn whole(target: &str) -> ProvidersLabel {
    ProvidersLabel::default_for(target)
}

fn part(target: &str, provider: &str) -> ProvidersLabel {
    ProvidersLabel {
        target: target.to_owned(),
        providers: vec![provider.to_owned()],
    }
}

fn packages(names: &[&str]) -> CheckVisibility {
    CheckVisibility::OrPackages(names.iter().map(|name| name.to_string()).collect())
}

fn label(name: &str, cfg: &str) -> ConfiguredTargetLabel {
    ConfiguredTargetLabel {
        unconfigured: name.to_owned(),
        cfg: cfg.to_owned(),
        exec_cfg: None,
    }
}

fn map(entries: &[(&str, &str)]) -> KeyMap<String, String> {
    let mut map = KeyMap::new();
    for (key, value) in entries {
        map.insert(key.to_string(), value.to_string());
    }
    map
}

#[test]
fn checks_merge_towards_the_stricter_one() {
    let merged = |a: &CheckVisibility, b: &CheckVisibility| {
        let mut out = a.duplicate();
        out.merge(b);
        out
    };
    let yes = CheckVisibility::default();
    let no = CheckVisibility::No;
    let ab = packages(&["a", "b"]);
    let bc = packages(&["b", "c"]);
    assert_eq!(merged(&yes, &no), CheckVisibility::Yes);
    assert_eq!(merged(&ab, &yes), CheckVisibility::Yes);
    assert_eq!(merged(&no, &ab), ab);
    assert_eq!(merged(&ab, &no), ab);
    assert_eq!(merged(&ab, &bc), packages(&["a", "b", "c"]));
    assert_eq!(merged(&ab, &ab), ab);
    assert_eq!(
        CheckVisibility::for_bazel_attr(Some(text("p"))),
        packages(&["p"])
    );
    assert_eq!(CheckVisibility::for_bazel_attr(None), CheckVisibility::Yes);
}

#[test]
fn problems_are_noted_and_the_last_one_counts() {
    let mut problems = ErrorsAndIncompatibilities::new();
    assert_eq!(
        problems.unpack_dep(&label("t", "c"), "d", ResultMaybeCompatible::Compatible(1), &CheckVisibility::No, Ok(false)),
        Some(1)
    );
    assert_eq!(
        problems.unpack_dep(&label("t", "c"), "d", ResultMaybeCompatible::Compatible(2), &CheckVisibility::Yes, Ok(true)),
        Some(2)
    );
    assert_eq!(
        problems.unpack_dep(&label("t", "c"), "d", ResultMaybeCompatible::Compatible(3), &CheckVisibility::Yes, Ok(false)),
        None
    );
    assert_eq!(
        problems.errs,
        vec![NodeError::NotVisibleTo(text("d"), text("t"))]
    );
    let mut list: Vec<i32> = Vec::new();
    problems.unpack_dep_no_visibility_into(&label("t", "c"), ResultMaybeCompatible::Compatible(4), &mut list);
    problems.unpack_dep_no_visibility_into(
        &label("t", "c"),
        ResultMaybeCompatible::Incompatible(IncompatiblePlatformReason {
            targets: vec![text("d")],
            cause: IncompatiblePlatformReasonCause::UnsatisfiedConfig(text("s")),
        }),
        &mut list,
    );
    assert_eq!(list, vec![4]);
    let reason = IncompatiblePlatformReason {
        targets: vec![text("t (c)"), text("d")],
        cause: IncompatiblePlatformReasonCause::UnsatisfiedConfig(text("s")),
    };
    assert_eq!(
        problems.finalize(),
        ResultMaybeCompatible::Incompatible(reason)
    );
    let mut errors = ErrorsAndIncompatibilities::new();
    errors.push_err(NodeError::Other(error("1")));
    errors.push_err(NodeError::Other(error("2")));
    assert_eq!(
        errors.finalize(),
        ResultMaybeCompatible::Error(NodeError::Other(error("2")))
    );
    assert_eq!(
        ErrorsAndIncompatibilities::new().finalize(),
        ResultMaybeCompatible::Compatible(())
    );
}

#[test]
fn visibility_is_decided_step_by_step() {
    let answers = |group: bool, own: bool, groups: bool| VisibilityAnswers {
        is_package_group: group,
        visible_to_target: Ok(own),
        groups_allow_target: Ok(groups),
    };
    let none = Vec::new();
    let visible = |a: &VisibilityAnswers, check: &CheckVisibility| {
        target_node_dependency_is_visible(a, check, &none).unwrap()
    };
    assert!(visible(&answers(true, false, false), &CheckVisibility::Yes));
    assert!(visible(&answers(false, true, false), &CheckVisibility::Yes));
    assert!(visible(&answers(false, false, true), &CheckVisibility::Yes));
    assert!(!visible(&answers(false, false, false), &CheckVisibility::Yes));
    let some = vec![(Ok(false), Ok(false)), (Ok(false), Ok(true))];
    assert!(target_node_dependency_is_visible(
        &answers(false, false, false),
        &packages(&["a", "b"]),
        &some
    )
    .unwrap());
    assert!(!target_node_dependency_is_visible(
        &answers(false, false, false),
        &CheckVisibility::Yes,
        &some
    )
    .unwrap());
    let failed = vec![(Err(error("x")), Ok(true))];
    assert_eq!(
        target_node_dependency_is_visible(
            &answers(false, false, false),
            &packages(&["a"]),
            &failed
        ),
        Err(error("x"))
    );
}

#[test]
fn package_groups_are_looked_for_among_single_targets() {
    let single = |package: &str, name: &str| VisibilityPattern::Target {
        package: package.to_owned(),
        name: name.to_owned(),
    };
    let patterns = vec![
        single("root//a", "x"),
        VisibilityPattern::Package(text("root//b")),
        single("root//c", "y"),
        VisibilityPattern::Recursive(text("root//d")),
    ];
    assert_eq!(
        bazel_package_group_visibility_labels(&Some(patterns)),
        vec!["root//a:x", "root//c:y"]
    );
    assert!(bazel_package_group_visibility_labels(&None).is_empty());
}

#[test]
fn package_groups_are_followed_through_their_includes() {
    let group = |admits: bool, includes: &[&str]| KnownGroup::Group {
        admits,
        includes: includes.iter().map(|label| label.to_string()).collect(),
    };
    let mut known = KeyMap::new();
    known.insert(text("//:a"), group(false, &["//:b", "//:a"]));
    assert_eq!(
        bazel_package_groups_allow(&known, &vec![text("//:a")]),
        GroupsAnswer::NeedsGroup(text("//:b"))
    );
    known.insert(text("//:b"), group(false, &["//:a", "//:c"]));
    known.insert(text("//:c"), group(true, &[]));
    assert_eq!(
        bazel_package_groups_allow(&known, &vec![text("//:a")]),
        GroupsAnswer::Admitted(true)
    );
    known.insert(text("//:c"), group(false, &["//:a"]));
    assert_eq!(
        bazel_package_groups_allow(&known, &vec![text("//:a")]),
        GroupsAnswer::Admitted(false)
    );
    known.insert(text("//:c"), KnownGroup::Failed(error("gone")));
    assert_eq!(
        bazel_package_groups_allow(&known, &vec![text("//:a")]),
        GroupsAnswer::Failed(error("looking up package_group `//:c`: gone"))
    );
}

#[test]
fn attributes_with_dependencies_are_hidden_from_transitions() {
    let both = |attr: CoercedAttr| {
        (
            coerced_attr_can_be_transition_attr(&attr),
            coerced_attr_can_be_bazel_transition_attr(&attr),
        )
    };
    assert_eq!(both(CoercedAttr::Bool(true)), (true, true));
    assert_eq!(both(CoercedAttr::Dep(whole("x"))), (false, true));
    assert_eq!(both(CoercedAttr::SourceFile(text("x"))), (false, false));
    assert_eq!(
        both(CoercedAttr::List(vec![
            CoercedAttr::Int(1),
            CoercedAttr::OneOf(Box::new(CoercedAttr::SourceLabel(whole("x")))),
        ])),
        (false, true)
    );
    assert_eq!(
        both(CoercedAttr::Dict(
            vec![CoercedAttr::String(text("k"))],
            vec![CoercedAttr::PluginDep(text("p"))]
        )),
        (false, false)
    );
}

#[test]
fn labels_are_found_in_attributes() {
    let list = CoercedAttr::OneOf(Box::new(CoercedAttr::List(vec![
        CoercedAttr::Label(whole("a")),
        CoercedAttr::Int(3),
        CoercedAttr::OneOf(Box::new(CoercedAttr::Dep(whole("b")))),
    ])));
    assert_eq!(attr_target_labels(&list), vec!["a", "b"]);
    assert_eq!(attr_target_label(&list), None);
    assert_eq!(
        attr_target_labels(&CoercedAttr::ConfigurationDep(whole("c"))),
        vec!["c"]
    );
    assert_eq!(
        attr_target_label(&CoercedAttr::Dep(part("//a:b", "sub"))).map(String::as_str),
        Some("//a:b")
    );
    assert_eq!(part("//a:b", "sub").display(), "//a:b[sub]");
    assert!(attr_target_labels(&CoercedAttr::Nothing).is_empty());
    assert_eq!(
        attr_configuration_setting_keys(&list),
        vec![whole("a"), whole("b")]
    );
    assert_eq!(
        attr_bool(&CoercedAttr::OneOf(Box::new(CoercedAttr::Bool(true)))),
        Some(true)
    );
    assert_eq!(attr_bool(&CoercedAttr::Int(1)), None);
    let configured = ConfiguredAttr::Tuple(vec![
        ConfiguredAttr::Dict(vec![(
            ConfiguredAttr::Label(text("k")),
            ConfiguredAttr::List(vec![ConfiguredAttr::Label(text("v"))]),
        )]),
        ConfiguredAttr::Other(text("o")),
        ConfiguredAttr::OneOf(Box::new(ConfiguredAttr::Label(text("z")))),
    ]);
    assert_eq!(configured_attr_labels(&configured), vec!["k", "v", "z"]);
    assert!(is_bazel_default_make_variable_attribute("$toolchains"));
    assert!(!is_bazel_default_make_variable_attribute("deps"));
}

#[test]
fn dependencies_are_gathered_in_order() {
    let mut traversal = Traversal::new();
    traversal.dep("b");
    traversal.set_visibility_check(packages(&["p"]));
    traversal.dep("a");
    traversal.dep_with_plugins("a", vec![(text("k"), true)]);
    traversal.dep_with_plugins("a", vec![(text("k"), true)]);
    traversal.dep("b");
    traversal.exec_dep("e");
    traversal.exec_dep("f");
    traversal.toolchain_dep("t");
    traversal.toolchain_dep("t");
    traversal.plugin_dep("g", "k");
    traversal.insert_bazel_make_variable_label_deps(&ConfiguredAttr::Label(text("m")));
    let deps = traversal.deps();
    let names: Vec<&str> = deps.iter().map(|(name, _)| name.as_str()).collect();
    assert_eq!(names, vec!["b", "a", "m"]);
    assert_eq!(deps[0].1.check, CheckVisibility::Yes);
    assert_eq!(deps[1].1.check, packages(&["p"]));
    assert_eq!(deps[1].1.plugin_kinds, vec![vec![(text("k"), true)]]);
    assert_eq!(traversal.toolchain_deps(), vec!["t"]);
    assert_eq!(
        traversal.plugins(),
        &vec![(text("k"), text("g"), PluginListElemKind::Direct)]
    );
    traversal.add_plugin_exec_deps(&vec![text("e"), text("h")]);
    let exec: Vec<&str> = traversal
        .exec_deps()
        .iter()
        .map(|(name, _)| name.as_str())
        .collect();
    assert_eq!(exec, vec!["e", "f", "h"]);

    let known = |visible: Result<bool, InputError>| DepAnswer::Known {
        unconfigured: text("u"),
        visible,
    };
    let mut problems = ErrorsAndIncompatibilities::new();
    let gathered = traversal
        .check_visibility(
            "//:target",
            &vec![
                known(Ok(true)),
                known(Ok(false)),
                DepAnswer::LookupFailed(error("not asked")),
            ],
            &vec![known(Err(error("bad")))],
            &mut problems,
        )
        .ok()
        .unwrap();
    let exec: Vec<&str> = gathered
        .exec_deps()
        .iter()
        .map(|(name, _)| name.as_str())
        .collect();
    assert_eq!(exec, vec!["e", "h"]);
    assert!(gathered.toolchain_deps().is_empty());
    assert_eq!(
        problems.errs,
        vec![
            NodeError::NotVisibleTo(text("u"), text("//:target")),
            NodeError::Other(error("bad")),
        ]
    );
    assert_eq!(
        traversal
            .check_visibility(
                "//:target",
                &vec![
                    DepAnswer::LookupFailed(error("gone")),
                    known(Ok(true)),
                    known(Ok(true)),
                ],
                &vec![known(Ok(true))],
                &mut problems,
            )
            .err(),
        Some(error("gone"))
    );
}

#[test]
fn plugins_come_on_from_dependencies() {
    let mut notes = Vec::new();
    propagate_plugins(
        &mut notes,
        &vec![vec![(text("k"), false)], vec![(text("k"), true), (text("j"), false)]],
        &vec![
            (
                text("k"),
                vec![
                    (text("a"), PluginListElemKind::Direct),
                    (text("b"), PluginListElemKind::NoPropagate),
                ],
            ),
            (text("j"), vec![(text("c"), PluginListElemKind::Propagate)]),
            (text("i"), vec![(text("d"), PluginListElemKind::Direct)]),
        ],
    );
    assert_eq!(
        notes,
        vec![
            (text("k"), text("a"), PluginListElemKind::Propagate),
            (text("j"), text("c"), PluginListElemKind::NoPropagate),
        ]
    );
    let answer = |toolchain: bool, visible: bool| PluginAnswer::Known {
        is_toolchain_rule: toolchain,
        visible: Ok(visible),
    };
    let direct = vec![(text("k"), text("a"), PluginListElemKind::Direct)];
    assert!(check_plugin_deps("t", &direct, &vec![answer(false, true)]).is_ok());
    assert_eq!(
        check_plugin_deps("t", &direct, &vec![answer(true, true)]),
        Err(PluginDepError::IsToolchainRule(text("a")))
    );
    assert_eq!(
        check_plugin_deps("t", &direct, &vec![answer(false, false)]),
        Err(PluginDepError::NotVisibleTo(text("a"), text("t")))
    );
    assert_eq!(
        check_plugin_deps("t", &direct, &vec![PluginAnswer::LookupFailed(error("x"))]),
        Err(PluginDepError::Other(error("x")))
    );
    assert!(check_plugin_deps("t", &notes, &vec![answer(true, false), answer(true, false)]).is_ok());
}

#[test]
fn targets_have_to_be_compatible_with_their_configuration() {
    let target = label("//:t", "cfg");
    let list = |items: &[(&str, bool)]| {
        Some(CompatibleWith::List(
            items
                .iter()
                .map(|(label, met)| Ok((label.to_string(), *met)))
                .collect(),
        ))
    };
    assert_eq!(check_compatible(&target, &None, &None), Ok(None));
    assert_eq!(check_compatible(&target, &list(&[]), &list(&[])), Ok(None));
    assert_eq!(
        check_compatible(&target, &list(&[("a", true), ("b", true)]), &None),
        Ok(None)
    );
    let unmet = check_compatible(&target, &list(&[("a", true), ("b", false), ("c", false)]), &None)
        .unwrap()
        .unwrap();
    assert_eq!(
        unmet.cause,
        IncompatiblePlatformReasonCause::UnsatisfiedConfig(text("b"))
    );
    assert_eq!(unmet.targets, vec!["//:t (cfg)"]);
    assert_eq!(
        check_compatible(&target, &None, &list(&[("a", false), ("b", true)])),
        Ok(None)
    );
    assert!(check_compatible(&target, &None, &list(&[("a", false)]))
        .unwrap()
        .is_some());
    assert_eq!(
        check_compatible(&target, &list(&[("a", true)]), &list(&[("a", true)]))
            .err()
            .unwrap()
            .message,
        "`//:t (cfg)` had both `target_compatible_with` and `compatible_with` attributes. It should only have one."
    );
    assert_eq!(
        check_compatible(&target, &Some(CompatibleWith::NotList(text("1"))), &None)
            .err()
            .unwrap()
            .message,
        "expected `target_compatible_with` attribute to be a list but got `1`"
    );
    assert_eq!(
        check_compatible(&target, &None, &Some(CompatibleWith::NotConfigured(error("x"))))
            .err()
            .unwrap()
            .message,
        "Error configuring attribute `compatible_with`: x"
    );
    let has_no_value = || Some(CompatibleWith::Incompatible(error("no value there")));
    assert_eq!(
        check_compatible(&target, &has_no_value(), &None),
        Err(error("no value there"))
    );
    assert_eq!(
        check_compatible(
            &target,
            &Some(CompatibleWith::NotConfigured(error("x"))),
            &has_no_value()
        ),
        Err(error("Error configuring attribute `target_compatible_with`: x"))
    );
    assert_eq!(
        check_compatible(
            &target,
            &None,
            &Some(CompatibleWith::List(vec![Err(error("bad label"))]))
        )
        .err()
        .unwrap()
        .message,
        "attribute `compatible_with`: bad label"
    );
}

#[test]
fn targets_are_computed_by_plan() {
    let none = IncomingTransition::Nothing;
    let plan = |exec, toolchain, bazel, file, incoming: &IncomingTransition| {
        configured_target_node_plan(exec, toolchain, bazel, file, incoming)
    };
    assert_eq!(plan(false, true, false, false, &none), NodePlan::ToolchainUsedAsNormalDep);
    assert_eq!(
        NodePlan::ToolchainUsedAsNormalDep.error("//:t"),
        Some(error(
            "Target `//:t` was used not as a toolchain_dep, but is a toolchain rule"
        ))
    );
    assert_eq!(
        NodePlan::NonToolchainUsedAsToolchainDep.error("//:t"),
        Some(error(
            "Target `//:t` was used as a toolchain_dep, but is not a toolchain rule"
        ))
    );
    assert_eq!(NodePlan::Direct.error("//:t"), None);
    assert_eq!(
        plan(true, false, false, false, &none),
        NodePlan::NonToolchainUsedAsToolchainDep
    );
    assert_eq!(plan(false, false, true, true, &none), NodePlan::InputFile);
    assert_eq!(plan(true, false, true, false, &none), NodePlan::BazelPlatform);
    assert_eq!(plan(false, false, false, false, &none), NodePlan::Direct);
    assert_eq!(
        plan(false, false, true, false, &IncomingTransition::Fixed(text("f"))),
        NodePlan::Transition(text("f"))
    );
    assert_eq!(
        plan(
            false,
            false,
            false,
            false,
            &IncomingTransition::FromAttribute(Some(CoercedAttr::ConfigurationDep(whole("c"))))
        ),
        NodePlan::Transition(text("c"))
    );
    assert_eq!(
        plan(
            false,
            false,
            false,
            false,
            &IncomingTransition::FromAttribute(Some(CoercedAttr::Nothing))
        ),
        NodePlan::Direct
    );
}

#[test]
fn transitioned_attributes_have_to_stay() {
    let attr = |after: Option<(String, bool)>| {
        vec![TransitionedAttr {
            name: text("a"),
            before: text("1"),
            after,
        }]
    };
    let node = label("//:t", "new");
    assert!(verify_transitioned_attrs(&attr(Some((text("1"), true))), "old", &node, "").is_ok());
    assert_eq!(
        verify_transitioned_attrs(&attr(Some((text("2"), false))), "old", &node, "")
            .err()
            .unwrap()
            .message,
        "Target //:t configuration transitioned\nold: old\nnew: new\nbut attribute: a\nresolved with old configuration to: 1\nresolved with new configuration to: 2"
    );
    assert_eq!(
        verify_transitioned_attrs(&attr(None), "old", &node, "b, c")
            .err()
            .unwrap()
            .message,
        "Attr a was not found in transition for target //:t (new) (b, c)"
    );
    let before = label("//:t", "old");
    assert!(check_transitioned_node(&before, &node, false, &attr(None), "old", "", None).is_ok());
    assert!(check_transitioned_node(&before, &node, true, &attr(None), "old", "", None).is_err());
    assert_eq!(
        check_transitioned_node(&before, &node, false, &attr(None), "old", "", Some("third"))
            .err()
            .unwrap()
            .message,
        "idempotence should have been enforced by transition idempotence and attr change checks: Target //:t configuration transition is not idempotent\n         in initial configuration  `old`\n         first transitioned to cfg `new`\n         then transitions to cfg   `third`\n         Use `buck2 audit configurations old new third` to see the configurations."
    );
}

#[test]
fn chains_of_targets_are_shown() {
    let one = LookingUpConfiguredNodeContext::new(label("//:c", "x"), None);
    assert_eq!(one.display(), "Error looking up configured node //:c (x)");
    let two = LookingUpConfiguredNodeContext::new(label("//:b", "x"), Some(&one));
    let three = LookingUpConfiguredNodeContext::new(label("//:a", "y"), Some(&two));
    assert_eq!(
        three.display(),
        "Error in configured node dependency, dependency chain follows (-> indicates depends on, ^ indicates same configuration as previous):\n       //:a (y)\n    -> //:b (x)\n    -> //:c (^)\n"
    );
    let mut with_exec = label("//:t", "cfg");
    with_exec.exec_cfg = Some(text("exec"));
    let key = ConfiguredTargetNodeKey(with_exec);
    assert_eq!(key.display(), "CONFIGURED_TARGET(//:t (cfg) (exec))");
    assert_eq!(key.kind(), "configure_target");
}

#[test]
fn incompatible_dependencies_can_be_errors() {
    assert!(check_error_on_incompatible_dep(&vec![false], &vec![false, true]));
    assert!(!check_error_on_incompatible_dep(&vec![true], &vec![true]));
    assert!(!check_error_on_incompatible_dep(&vec![], &vec![]));
    assert_eq!(
        get_dep_only_incompatible_custom_soft_error(&vec![(text("a"), true), (text("b"), false)]),
        vec!["a"]
    );
    let reason = |n: usize| IncompatiblePlatformReason {
        targets: vec![text("t"); n],
        cause: IncompatiblePlatformReasonCause::UnsatisfiedConfig(text("s")),
    };
    assert_eq!(
        incompatible_outcome(true, &reason(1), true, Vec::new()),
        IncompatibleOutcome::AsItIs
    );
    assert_eq!(
        incompatible_outcome(false, &reason(2), true, Vec::new()),
        IncompatibleOutcome::AsItIs
    );
    assert_eq!(
        incompatible_outcome(true, &reason(2), true, Vec::new()),
        IncompatibleOutcome::Error
    );
    assert_eq!(
        incompatible_outcome(true, &reason(2), false, vec![text("x")]),
        IncompatibleOutcome::SoftErrors(vec![text("x")])
    );
}

#[test]
fn toolchain_keys_and_kinds_match_by_name() {
    assert_eq!(normalize_bazel_toolchain_key("@@x//:y"), "x//:y");
    assert!(bazel_toolchain_keys_match("a//p:t", "b//p:t"));
    assert!(!bazel_toolchain_keys_match("a//p:t", "a//p:u"));
    assert!(bazel_toolchain_keys_match("t", "t"));
    assert!(!bazel_toolchain_keys_match("t", "u"));
    assert!(bazel_rule_kind_is("alias", "alias"));
    assert!(bazel_rule_kind_is("x.bzl:alias", "alias"));
    assert!(!bazel_rule_kind_is("my_alias", "alias"));
    assert!(is_bazel_relative_target_shorthand("name"));
    for other in ["", "@x", ":x", "/x", ".x", "a/b", "a:b", "a[b", "a]"] {
        assert!(!is_bazel_relative_target_shorthand(other));
    }
    assert_eq!(
        parse_bazel_nodep_label("x", Err(error("e")), Ok(text("//:x"))),
        Ok(text("//:x"))
    );
    assert_eq!(
        parse_bazel_nodep_label(":x", Err(error("e")), Ok(text("//:x"))),
        Err(error("e"))
    );
    assert_eq!(
        bazel_toolchain_implementation_label(&CoercedAttr::String(text("x")), Ok(text("//:x"))),
        Ok(Some(text("//:x")))
    );
    assert_eq!(
        bazel_toolchain_implementation_label(&CoercedAttr::Dep(whole("d")), Err(error("unused"))),
        Ok(Some(text("d")))
    );
}

fn alias_of(actual: &str) -> KnownTarget {
    KnownTarget::Target {
        rule_type: text("alias"),
        actual: Some(CoercedAttr::Dep(whole(actual))),
    }
}

fn plain() -> KnownTarget {
    KnownTarget::Target {
        rule_type: text("rule"),
        actual: None,
    }
}

#[test]
fn aliases_are_followed_to_their_end() {
    let mut known = KeyMap::new();
    known.insert(text("a"), alias_of("b"));
    assert_eq!(
        resolve_bazel_alias(&known, "a"),
        Err(TargetStop::NeedsTarget(text("b")))
    );
    known.insert(text("b"), alias_of("c"));
    known.insert(text("c"), plain());
    assert_eq!(resolve_bazel_alias(&known, "a"), Ok(text("c")));
    assert_eq!(
        resolve_bazel_toolchain_type_alias(&known, "t", Some("a")),
        Ok(text("c"))
    );
    assert_eq!(
        resolve_bazel_toolchain_type_alias(&known, "t", None),
        Ok(text("t"))
    );
    assert_eq!(
        resolve_bazel_toolchain_type_alias(&known, "t", Some("@@unknown//:t")),
        Err(TargetStop::NeedsTarget(text("@@unknown//:t")))
    );
    known.insert(text("s"), alias_of("s"));
    assert_eq!(resolve_bazel_alias(&known, "s"), Ok(text("s")));
    known.insert(text("x"), alias_of("y"));
    known.insert(text("y"), alias_of("x"));
    assert_eq!(resolve_bazel_alias(&known, "x"), Ok(text("x")));
    known.insert(text("f"), KnownTarget::Failed(error("gone")));
    assert_eq!(
        resolve_bazel_alias(&known, "f"),
        Err(TargetStop::Failed(error("gone")))
    );
}

#[test]
fn platforms_have_to_have_what_toolchains_ask_for() {
    let mut known = KeyMap::new();
    known.insert(text("also_linux"), alias_of("linux"));
    known.insert(text("linux"), plain());
    known.insert(text("macos"), plain());
    let linux = Some(map(&[("os", "linux")]));
    let has = |values: &[&str], platform: &Option<KeyMap<String, String>>| {
        platform_contains_constraint_values(
            &known,
            platform,
            &values.iter().map(|value| value.to_string()).collect(),
        )
    };
    assert_eq!(has(&["linux"], &linux), Ok(true));
    assert_eq!(has(&["also_linux"], &linux), Ok(true));
    assert_eq!(has(&["macos"], &linux), Ok(false));
    assert_eq!(has(&["linux"], &None), Ok(false));
    assert_eq!(has(&[], &None), Ok(true));
    assert_eq!(
        has(&["unknown"], &linux),
        Err(TargetStop::NeedsTarget(text("unknown")))
    );
    let wide = Some(map(&[("cpu", "arm"), ("os", "linux")]));
    assert!(platform_contains_platform_constraints(&wide, &linux));
    assert!(!platform_contains_platform_constraints(&linux, &wide));
    assert!(!platform_contains_platform_constraints(&None, &linux));
    assert!(configuration_settings_match(false, &vec![]));
    assert!(!configuration_settings_match(false, &vec![true]));
    assert!(configuration_settings_match(true, &vec![true]));
    assert!(!configuration_settings_match(true, &vec![true, false]));
    let node = |met: Vec<bool>, same: bool, target: &str, exec: &str| ToolchainNode {
        target_settings_met: met,
        use_target_platform_constraints: Some(CoercedAttr::Bool(same)),
        target_compatible_with: Some(CoercedAttr::List(vec![CoercedAttr::Dep(whole(target))])),
        exec_compatible_with: Some(CoercedAttr::List(vec![CoercedAttr::Dep(whole(exec))])),
    };
    let fits = |node: ToolchainNode| toolchain_constraints_match(&known, &node, &linux, &wide);
    assert_eq!(fits(node(vec![], false, "linux", "arm")), Ok(true));
    assert_eq!(fits(node(vec![false], false, "linux", "arm")), Ok(false));
    assert_eq!(fits(node(vec![], false, "macos", "arm")), Ok(false));
    assert_eq!(fits(node(vec![], true, "macos", "macos")), Ok(true));
}

#[test]
fn toolchains_are_chosen_and_declared_once() {
    assert_eq!(
        registered_toolchain_patterns(
            &vec![text("a"), text("b")],
            &vec![text("c"), text("a")]
        ),
        vec!["b", "a", "c"]
    );
    let candidate = |name: &str, fits, implementation| ToolchainCandidate {
        toolchain_type: text(name),
        fits,
        implementation,
    };
    let candidates = vec![
        candidate("x//:u", Err(error("not asked")), None),
        candidate("x//:t", Ok(false), Some(Ok(Some(text("1"))))),
        candidate("x//:t", Ok(true), None),
        candidate("y//:t", Ok(true), Some(Ok(Some(text("2"))))),
    ];
    assert_eq!(
        compute_bazel_single_toolchain_resolution(&candidates, "x//:t"),
        Ok(Some(text("2")))
    );
    assert_eq!(
        compute_bazel_single_toolchain_resolution(&candidates, "x//:v"),
        Ok(None)
    );
    assert_eq!(
        compute_bazel_single_toolchain_resolution(&candidates, "x//:u"),
        Err(error("not asked"))
    );
    let declared = DeclaredToolchains::collect(
        &vec![(text("@b//:t"), false), (text("a//:t"), false), (text("b//:t"), true)],
        &vec![text("rb"), text("ra"), text("other")],
    );
    assert_eq!(
        declared.entries(),
        vec![
            (&text("b//:t"), &(text("rb"), true)),
            (&text("a//:t"), &(text("ra"), false)),
        ]
    );
    assert_eq!(
        resolve_bazel_toolchain_deps(true, &declared, &vec![Some(text("i")), None], "//:t"),
        Ok(vec![(text("b//:t"), text("i"))])
    );
    assert_eq!(
        resolve_bazel_toolchain_deps(true, &declared, &vec![None, None], "//:t"),
        Err(error(
            "mandatory toolchain type `b//:t` was not resolved for `//:t`"
        ))
    );
    assert_eq!(
        resolve_bazel_toolchain_deps(false, &declared, &Vec::new(), "//:t"),
        Ok(Vec::new())
    );
}

#[test]
fn build_settings_are_read_from_their_entries() {
    assert_eq!(bazel_config_lines(Some("a\n\nb")), vec!["a", "b"]);
    assert!(bazel_config_lines(None).is_empty());
    let entries = vec![
        text("bool\t//x:y\ttrue"),
        text("list\t//command_line_option:p\t1"),
        text("list\t//command_line_option:p\t2\t3"),
        text("string\t//x:z\tv"),
    ];
    assert_eq!(
        bazel_build_setting_label_keys(&entries),
        vec![Some(text("//x:y")), None, None, Some(text("//x:z"))]
    );
    let labels = vec![
        Ok(text("root//x:y")),
        Err(error("unused")),
        Err(error("unused")),
        Ok(text("root//x:z")),
    ];
    let settings = bazel_command_line_build_settings(&entries, &labels).unwrap();
    assert_eq!(
        settings.entries,
        vec![
            (
                text("//command_line_option:p"),
                BazelBuildSettingValue::StringList(vec![text("1"), text("2\t3")])
            ),
            (text("root//x:y"), BazelBuildSettingValue::Bool(true)),
            (text("root//x:z"), BazelBuildSettingValue::String(text("v"))),
        ]
    );
    let failure = |entry: &str, label: Result<String, InputError>| {
        bazel_command_line_build_settings(&vec![text(entry)], &vec![label])
            .err()
            .unwrap()
            .message
    };
    assert_eq!(
        failure("bool\tx", Ok(text("x"))),
        "Malformed Bazel command-line build setting entry `bool\tx`"
    );
    assert_eq!(
        failure("float\tx\t1", Ok(text("x"))),
        "Unsupported Bazel command-line build setting entry kind `float`"
    );
    assert_eq!(
        failure("bool\tx\t1", Err(error("no label"))),
        "Parsing Bazel command-line build setting `x`: no label"
    );
    let (name, applied) =
        apply_bazel_command_line_build_settings("cfg", &KeyMap::new(), &settings).unwrap();
    assert_eq!(name, "cfg-bazelrc");
    assert_eq!(applied, settings);
    assert!(apply_bazel_command_line_build_settings("cfg", &applied, &settings).is_none());
    let mut replaced = KeyMap::new();
    push_bazel_build_setting(&mut replaced, text("k"), BazelBuildSettingValue::Bool(true));
    push_bazel_build_setting(
        &mut replaced,
        text("k"),
        BazelBuildSettingValue::StringList(vec![text("a")]),
    );
    assert_eq!(
        replaced.entries,
        vec![(
            text("k"),
            BazelBuildSettingValue::StringList(vec![text("a")])
        )]
    );
}

#[test]
fn platforms_are_read_from_settings() {
    let none = Vec::new();
    assert_eq!(
        bazel_platform_targets_from_setting(
            &BazelBuildSettingValue::LabelList(vec![part("x", "sub"), whole("y")]),
            &none,
            "",
        ),
        Ok(vec![text("x"), text("y")])
    );
    assert_eq!(
        bazel_platform_targets_from_setting(&BazelBuildSettingValue::Label(whole("y")), &none, ""),
        Ok(vec![text("y")])
    );
    let texts = BazelBuildSettingValue::StringList(vec![text("//:a"), text("b"), text("c")]);
    assert_eq!(
        bazel_platform_targets_from_setting(
            &texts,
            &vec![Ok(text("root//:a")), Err(error("no label")), Err(error("later"))],
            "",
        ),
        Err(error("Parsing Bazel platform label `b`: no label"))
    );
    assert_eq!(
        bazel_platform_targets_from_setting(
            &BazelBuildSettingValue::String(text("//:a")),
            &vec![Ok(text("root//:a"))],
            "",
        ),
        Ok(vec![text("root//:a")])
    );
    assert_eq!(
        bazel_platform_targets_from_setting(&BazelBuildSettingValue::Int(7), &none, "7"),
        Err(error(
            "unsupported value for Bazel build setting `//command_line_option:platforms`: `7`"
        ))
    );
    assert_eq!(
        bazel_platform_configuration("//:p", None).err(),
        Some(error(
            "Expected `//:p` to be a `platform()` target, but it had no `PlatformInfo` provider."
        ))
    );
    let cfg = ConfigurationDataData {
        constraints: map(&[("os", "linux")]),
        build_settings: KeyMap::new(),
    };
    assert_eq!(
        bazel_platform_configuration("//:p", Some(cfg)).ok().unwrap().constraints,
        map(&[("os", "linux")])
    );
}

#[test]
fn platforms_are_applied_once() {
    let data = |constraints: &[(&str, &str)], settings: &[(&str, i64)]| {
        let mut build_settings = KeyMap::new();
        for (key, value) in settings {
            build_settings.insert(key.to_string(), BazelBuildSettingValue::Int(*value));
        }
        ConfigurationDataData {
            constraints: map(constraints),
            build_settings,
        }
    };
    let cfg = data(&[("os", "macos")], &[("b", 2), ("c", 3)]);
    let platform = data(&[("os", "linux")], &[("a", 1), ("b", 1)]);
    let applied = apply_bazel_platform_cfg_to_bazel_rule(&cfg, &platform, "//p:linux").unwrap();
    assert_eq!(applied.constraints, map(&[("os", "linux")]));
    assert_eq!(
        applied.build_settings.entries,
        vec![
            (
                text("//command_line_option:platforms"),
                BazelBuildSettingValue::LabelList(vec![whole("//p:linux")])
            ),
            (text("a"), BazelBuildSettingValue::Int(1)),
            (text("b"), BazelBuildSettingValue::Int(2)),
            (text("c"), BazelBuildSettingValue::Int(3)),
        ]
    );
    assert!(apply_bazel_platform_cfg_to_bazel_rule(&applied, &platform, "//p:linux").is_none());
    assert_eq!(bazel_platform_target(&vec![], "host"), "host");
    assert_eq!(bazel_platform_target(&vec![text("a"), text("b")], "host"), "a");
    match bazel_platform_names(&BazelBuildSettingValue::String(text("x"))) {
        PlatformNames::Texts(names) => assert_eq!(names, vec!["x"]),
        _ => panic!("expected texts"),
    }
    match bazel_platform_names(&BazelBuildSettingValue::LabelList(vec![part("x", "sub")])) {
        PlatformNames::Targets(names) => assert_eq!(names, vec!["x"]),
        _ => panic!("expected labels"),
    }
    assert!(matches!(
        bazel_platform_names(&BazelBuildSettingValue::Bool(true)),
        PlatformNames::Unsupported
    ));
}
