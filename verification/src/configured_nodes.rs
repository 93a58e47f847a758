//! How a target under a configuration is computed.

use vstd::prelude::*;
use vstd::string::*;
use crate::attrs::CoercedAttr;
use crate::module::InputError;
use crate::ordered::{Duplicate, lemma_push_contains};
use crate::text::{Text, concat, concat3, same};
use crate::visibility::{
    Cause, Incompatible, IncompatiblePlatformReason, IncompatiblePlatformReasonCause,
};

verus! {

/// A target under a configuration, and under one for execution where its parent
/// gave it one.
#[derive(Debug, PartialEq, Eq)]
pub struct ConfiguredTargetLabel {
    pub unconfigured: String,
    pub cfg: String,
    pub exec_cfg: Option<String>,
}

/// The model of [`ConfiguredTargetLabel`].
pub struct ConfiguredLabel {
    pub unconfigured: Text,
    pub cfg: Text,
    pub exec_cfg: Option<Text>,
}

impl DeepView for ConfiguredTargetLabel {
    type V = ConfiguredLabel;

    open spec fn deep_view(&self) -> ConfiguredLabel {
        ConfiguredLabel {
            unconfigured: self.unconfigured@,
            cfg: self.cfg@,
            exec_cfg: self.exec_cfg.deep_view(),
        }
    }
}

impl Duplicate for ConfiguredTargetLabel {
    fn duplicate(&self) -> (r: Self) {
        ConfiguredTargetLabel {
            unconfigured: self.unconfigured.clone(),
            cfg: self.cfg.clone(),
            exec_cfg: self.exec_cfg.duplicate(),
        }
    }
}

impl ConfiguredLabel {
    /// The label as a text.
    pub open spec fn text(self) -> Text {
        let own = self.unconfigured + " ("@ + self.cfg + ")"@;
        match self.exec_cfg {
            Some(exec_cfg) => own + " ("@ + exec_cfg + ")"@,
            None => own,
        }
    }
}

impl ConfiguredTargetLabel {
    /// The label as a text.
    pub fn display(&self) -> (r: String)
        ensures
            r@ == self.deep_view().text(),
    {
        let mut text = concat3(self.unconfigured.as_str(), " (", self.cfg.as_str());
        text.append(")");
        match &self.exec_cfg {
            Some(exec_cfg) => {
                text.append(" (");
                text.append(exec_cfg.as_str());
                text.append(")");
            },
            None => {},
        }
        text
    }
}

/// What the computation of a target under a configuration goes by.
#[derive(Debug, PartialEq, Eq)]
pub struct ConfiguredTargetNodeKey(pub ConfiguredTargetLabel);

impl ConfiguredTargetNodeKey {
    /// The key as a text.
    pub fn display(&self) -> (r: String)
        ensures
            r@ == "CONFIGURED_TARGET("@ + self.0.deep_view().text() + ")"@,
    {
        concat3("CONFIGURED_TARGET(", self.0.display().as_str(), ")")
    }

    /// The kind of work that the key stands for.
    pub fn kind(&self) -> (r: &'static str)
        ensures
            r@ == "configure_target"@,
    {
        "configure_target"
    }
}

/// A list of settings that a target has to meet: each with whether the
/// configuration meets it; a value that is no list; why the value cannot be had; or
/// the error that it is for a value to be asked of a platform on which the attribute
/// has none.
pub enum CompatibleWith {
    List(Vec<Result<(String, bool), InputError>>),
    NotList(String),
    NotConfigured(InputError),
    Incompatible(InputError),
}

/// The settings of an attribute: none where it is absent or empty.
pub open spec fn compatible_list(name: Text, attr: Option<CompatibleWith>) -> Result<
    Option<Seq<Result<(String, bool), InputError>>>,
    Text,
> {
    match attr {
        None => Ok(None),
        Some(CompatibleWith::List(list)) => if list@.len() == 0 {
            Ok(None)
        } else {
            Ok(Some(list@))
        },
        Some(CompatibleWith::NotList(value)) => Err(
            "expected `"@ + name + "` attribute to be a list but got `"@ + value@ + "`"@,
        ),
        Some(CompatibleWith::NotConfigured(e)) => Err(
            "Error configuring attribute `"@ + name + "`: "@ + e.deep_view(),
        ),
        Some(CompatibleWith::Incompatible(e)) => Err(e.deep_view()),
    }
}

/// What a list of settings comes to from `i` on: whether one is met, and the
/// first that is not; or the first error.
pub open spec fn settings_met(
    list: Seq<Result<(String, bool), InputError>>,
    i: int,
    some_met: bool,
    first_unmet: Option<Text>,
) -> Result<(bool, Option<Text>), Text>
    decreases list.len() - i,
{
    if i < 0 || i >= list.len() {
        Ok((some_met, first_unmet))
    } else {
        match list[i] {
            Err(e) => Err(e.deep_view()),
            Ok((label, met)) => settings_met(
                list,
                i + 1,
                some_met || met,
                if met || first_unmet is Some {
                    first_unmet
                } else {
                    Some(label@)
                },
            ),
        }
    }
}

/// Whether a target is compatible with its configuration: the setting that
/// stands in the way. Of the one attribute all settings have to be met; of the
/// older one a single one is enough; both together are an error.
pub open spec fn compatible(
    label: Text,
    all_of: Option<CompatibleWith>,
    any_of: Option<CompatibleWith>,
) -> Result<Option<Text>, Text> {
    match compatible_list("target_compatible_with"@, all_of) {
        Err(e) => Err(e),
        Ok(all_of) => match compatible_list("compatible_with"@, any_of) {
            Err(e) => Err(e),
            Ok(any_of) => match (all_of, any_of) {
                (None, None) => Ok(None),
                (Some(_), Some(_)) => Err(
                    "`"@ + label
                        + "` had both `target_compatible_with` and `compatible_with` attributes. It should only have one."@,
                ),
                (Some(list), None) => match settings_met(list, 0, false, None) {
                    Err(e) => Err("attribute `target_compatible_with`: "@ + e),
                    Ok((some_met, unmet)) => Ok(unmet),
                },
                (None, Some(list)) => match settings_met(list, 0, false, None) {
                    Err(e) => Err("attribute `compatible_with`: "@ + e),
                    Ok((some_met, unmet)) => if some_met {
                        Ok(None)
                    } else {
                        Ok(unmet)
                    },
                },
            },
        },
    }
}

fn unpack_target_compatible_with_attr<'a>(name: &str, attr: &'a Option<CompatibleWith>) -> (r:
    Result<Option<&'a Vec<Result<(String, bool), InputError>>>, InputError>)
    ensures
        match compatible_list(name@, *attr) {
            Ok(Some(list)) => r matches Ok(Some(found)) && found@ == list,
            Ok(None) => r matches Ok(None),
            Err(message) => r matches Err(e) && e.deep_view() == message,
        },
{
    match attr {
        None => Ok(None),
        Some(CompatibleWith::List(list)) => if list.len() == 0 {
            Ok(None)
        } else {
            Ok(Some(list))
        },
        Some(CompatibleWith::NotList(value)) => {
            let mut message = concat3(
                "expected `",
                name,
                "` attribute to be a list but got `",
            );
            message.append(value.as_str());
            message.append("`");
            Err(InputError { message })
        },
        Some(CompatibleWith::NotConfigured(e)) => {
            let mut message = concat3("Error configuring attribute `", name, "`: ");
            message.append(e.message.as_str());
            Err(InputError { message })
        },
        Some(CompatibleWith::Incompatible(e)) => Err(e.duplicate()),
    }
}

fn check_settings(list: &Vec<Result<(String, bool), InputError>>) -> (r: Result<
    (bool, Option<String>),
    InputError,
>)
    ensures
        match settings_met(list@, 0, false, None) {
            Ok((some_met, unmet)) => r matches Ok((met, first)) && met == some_met
                && first.deep_view() == unmet,
            Err(message) => r matches Err(e) && e.deep_view() == message,
        },
{
    let ghost whole = settings_met(list@, 0, false, None);
    let mut some_met = false;
    let mut first_unmet: Option<String> = None;
    let mut i: usize = 0;
    while i < list.len()
        invariant
            0 <= i <= list@.len(),
            whole == settings_met(list@, 0, false, None),
            whole == settings_met(list@, i as int, some_met, first_unmet.deep_view()),
        decreases list.len() - i,
    {
        match &list[i] {
            Err(e) => {
                return Err(e.duplicate());
            },
            Ok((label, met)) => {
                if *met {
                    some_met = true;
                } else if first_unmet.is_none() {
                    first_unmet = Some(label.clone());
                }
            },
        }
        i += 1;
    }
    Ok((some_met, first_unmet))
}

fn in_attribute(context: &str, e: InputError) -> (r: InputError)
    ensures
        r.deep_view() == context@ + e.deep_view(),
{
    InputError { message: concat(context, e.message.as_str()) }
}

/// Whether a target is compatible with its configuration.
pub fn check_compatible(
    target_label: &ConfiguredTargetLabel,
    target_compatible_with: &Option<CompatibleWith>,
    legacy_compatible_with: &Option<CompatibleWith>,
) -> (r: Result<Option<IncompatiblePlatformReason>, InputError>)
    ensures
        match compatible(
            target_label.deep_view().text(),
            *target_compatible_with,
            *legacy_compatible_with,
        ) {
            Ok(None) => r matches Ok(None),
            Ok(Some(unmet)) => r matches Ok(Some(reason)) && reason.deep_view() == (Incompatible {
                targets: seq![target_label.deep_view().text()],
                cause: Cause::UnsatisfiedConfig(unmet),
            }),
            Err(message) => r matches Err(e) && e.deep_view() == message,
        },
{
    let all_of = match unpack_target_compatible_with_attr(
        "target_compatible_with",
        target_compatible_with,
    ) {
        Ok(list) => list,
        Err(e) => {
            return Err(e);
        },
    };
    let any_of = match unpack_target_compatible_with_attr(
        "compatible_with",
        legacy_compatible_with,
    ) {
        Ok(list) => list,
        Err(e) => {
            return Err(e);
        },
    };
    let label = target_label.display();
    let unmet = match (all_of, any_of) {
        (None, None) => None,
        (Some(_), Some(_)) => {
            return Err(
                InputError {
                    message: concat3(
                        "`",
                        label.as_str(),
                        "` had both `target_compatible_with` and `compatible_with` attributes. It should only have one.",
                    ),
                },
            );
        },
        (Some(list), None) => match check_settings(list) {
            Ok((_, unmet)) => unmet,
            Err(e) => {
                return Err(in_attribute("attribute `target_compatible_with`: ", e));
            },
        },
        (None, Some(list)) => match check_settings(list) {
            Ok((some_met, unmet)) => if some_met {
                None
            } else {
                unmet
            },
            Err(e) => {
                return Err(in_attribute("attribute `compatible_with`: ", e));
            },
        },
    };
    match unmet {
        None => Ok(None),
        Some(setting) => {
            let ghost l = label@;
            let mut targets: Vec<String> = Vec::new();
            targets.push(label);
            assert(targets.deep_view() =~= seq![l]);
            let cause = IncompatiblePlatformReasonCause::UnsatisfiedConfig(setting);
            Ok(Some(IncompatiblePlatformReason { targets, cause }))
        },
    }
}

/// The transition that a rule asks for its targets.
pub enum IncomingTransition {
    Nothing,
    Fixed(String),
    FromAttribute(Option<CoercedAttr>),
}

/// The attribute of an incoming transition is one that attributes can be: absent,
/// nothing, or a label.
pub open spec fn transition_known(incoming: IncomingTransition) -> bool {
    match incoming {
        IncomingTransition::FromAttribute(Some(attr)) => attr is Nothing || attr is ConfigurationDep,
        _ => true,
    }
}

/// The transition that applies to a target.
pub open spec fn transition_of(incoming: IncomingTransition) -> Option<Text> {
    match incoming {
        IncomingTransition::Nothing => None,
        IncomingTransition::Fixed(id) => Some(id@),
        IncomingTransition::FromAttribute(attr) => match attr {
            Some(CoercedAttr::ConfigurationDep(label)) => Some(label.deep_view().text()),
            _ => None,
        },
    }
}

/// How a target under a configuration is computed: not at all, as an input file,
/// through a transition, under a Bazel platform first, or straight away.
#[derive(Debug, PartialEq, Eq)]
pub enum NodePlan {
    ToolchainUsedAsNormalDep,
    NonToolchainUsedAsToolchainDep,
    InputFile,
    Transition(String),
    BazelPlatform,
    Direct,
}

/// What is said of a target that is used as what it is not.
pub open spec fn wrong_use(plan: NodePlan, target: Text) -> Option<Text> {
    match plan {
        NodePlan::ToolchainUsedAsNormalDep => Some(
            "Target `"@ + target + "` was used not as a toolchain_dep, but is a toolchain rule"@,
        ),
        NodePlan::NonToolchainUsedAsToolchainDep => Some(
            "Target `"@ + target + "` was used as a toolchain_dep, but is not a toolchain rule"@,
        ),
        _ => None,
    }
}

impl NodePlan {
    /// What is said of a target that is used as what it is not.
    pub fn error(&self, target: &str) -> (r: Option<InputError>)
        ensures
            r.deep_view() == wrong_use(*self, target@),
    {
        let end = match self {
            NodePlan::ToolchainUsedAsNormalDep => {
                "` was used not as a toolchain_dep, but is a toolchain rule"
            },
            NodePlan::NonToolchainUsedAsToolchainDep => {
                "` was used as a toolchain_dep, but is not a toolchain rule"
            },
            _ => {
                return None;
            },
        };
        Some(InputError { message: concat3("Target `", target, end) })
    }
}

/// How a target under a configuration is computed: a rule for toolchains is used
/// with a configuration for execution and no other rule but a Bazel one is; an
/// input file has nothing to compute; a transition comes before anything else,
/// and the platform before the target of a Bazel rule.
pub fn configured_target_node_plan(
    has_exec_cfg: bool,
    is_toolchain_rule: bool,
    is_bazel_rule: bool,
    is_bazel_input_file: bool,
    incoming: &IncomingTransition,
) -> (r: NodePlan)
    requires
        transition_known(*incoming),
    ensures
        if !has_exec_cfg && is_toolchain_rule {
            r is ToolchainUsedAsNormalDep
        } else if has_exec_cfg && !is_toolchain_rule && !is_bazel_rule {
            r is NonToolchainUsedAsToolchainDep
        } else if is_bazel_input_file {
            r is InputFile
        } else {
            match transition_of(*incoming) {
                Some(id) => r matches NodePlan::Transition(found) && found@ == id,
                None => if is_bazel_rule {
                    r is BazelPlatform
                } else {
                    r is Direct
                },
            }
        },
{
    if !has_exec_cfg && is_toolchain_rule {
        return NodePlan::ToolchainUsedAsNormalDep;
    }
    if has_exec_cfg && !is_toolchain_rule && !is_bazel_rule {
        return NodePlan::NonToolchainUsedAsToolchainDep;
    }
    if is_bazel_input_file {
        return NodePlan::InputFile;
    }
    let transition = match incoming {
        IncomingTransition::Nothing => None,
        IncomingTransition::Fixed(id) => Some(id.clone()),
        IncomingTransition::FromAttribute(attr) => match attr {
            Some(CoercedAttr::ConfigurationDep(label)) => Some(label.display()),
            _ => None,
        },
    };
    match transition {
        Some(id) => NodePlan::Transition(id),
        None => if is_bazel_rule {
            NodePlan::BazelPlatform
        } else {
            NodePlan::Direct
        },
    }
}

/// The label that a transition leads to, where it is another one: under the new
/// configuration, and under none for execution.
pub fn label_after_transition(before: &ConfiguredTargetLabel, cfg: &str) -> (r: Option<
    ConfiguredTargetLabel,
>)
    ensures
        ({
            let after = ConfiguredLabel {
                unconfigured: before.unconfigured@,
                cfg: cfg@,
                exec_cfg: None,
            };
            if after == before.deep_view() {
                r is None
            } else {
                r matches Some(label) && label.deep_view() == after
            }
        }),
{
    if before.exec_cfg.is_none() && same(before.cfg.as_str(), cfg) {
        return None;
    }
    Some(
        ConfiguredTargetLabel {
            unconfigured: before.unconfigured.clone(),
            cfg: cfg.to_owned(),
            exec_cfg: None,
        },
    )
}

/// The label of a target of a Bazel rule under the configuration of its platform,
/// where that is another one.
pub fn label_on_bazel_platform(label: &ConfiguredTargetLabel, cfg: &str) -> (r: Option<
    ConfiguredTargetLabel,
>)
    ensures
        if cfg@ == label.cfg@ {
            r is None
        } else {
            r matches Some(after) && after.deep_view() == (ConfiguredLabel {
                cfg: cfg@,
                ..label.deep_view()
            })
        },
{
    if same(label.cfg.as_str(), cfg) {
        return None;
    }
    Some(
        ConfiguredTargetLabel {
            unconfigured: label.unconfigured.clone(),
            cfg: cfg.to_owned(),
            exec_cfg: label.exec_cfg.duplicate(),
        },
    )
}

/// An attribute that a transition saw, as a text, and what it is under the new
/// configuration, as a text and whether that is the same; none where the target
/// has it no more.
pub struct TransitionedAttr {
    pub name: String,
    pub before: String,
    pub after: Option<(String, bool)>,
}

/// What is said of an attribute that a transition made to change.
pub open spec fn attr_changed(
    target: Text,
    old_cfg: Text,
    new_cfg: Text,
    attr: Text,
    before: Text,
    after: Text,
) -> Text {
    "Target "@ + target + " configuration transitioned\nold: "@ + old_cfg + "\nnew: "@ + new_cfg
        + "\nbut attribute: "@ + attr + "\nresolved with old configuration to: "@ + before
        + "\nresolved with new configuration to: "@ + after
}

/// What is said of an attribute that the target has no more.
pub open spec fn attr_lost(label: Text, attr: Text, attrs: Text) -> Text {
    "Attr "@ + attr + " was not found in transition for target "@ + label + " ("@ + attrs + ")"@
}

/// The first attribute from `i` on that a transition made to change, in words.
pub open spec fn transition_problem(
    attrs: Seq<TransitionedAttr>,
    old_cfg: Text,
    label: ConfiguredLabel,
    all_attrs: Text,
    i: int,
) -> Option<Text>
    decreases attrs.len() - i,
{
    if i < 0 || i >= attrs.len() {
        None
    } else {
        match attrs[i].after {
            None => Some(attr_lost(label.text(), attrs[i].name@, all_attrs)),
            Some((after, same)) => if same {
                transition_problem(attrs, old_cfg, label, all_attrs, i + 1)
            } else {
                Some(
                    attr_changed(
                        label.unconfigured,
                        old_cfg,
                        label.cfg,
                        attrs[i].name@,
                        attrs[i].before@,
                        after@,
                    ),
                )
            },
        }
    }
}

/// Checks that the attributes that a transition saw are the same under the new
/// configuration.
pub fn verify_transitioned_attrs(
    pre_transition_attrs: &Vec<TransitionedAttr>,
    pre_transition_config: &str,
    node: &ConfiguredTargetLabel,
    all_attrs: &str,
) -> (r: Result<(), InputError>)
    ensures
        match transition_problem(
            pre_transition_attrs@,
            pre_transition_config@,
            node.deep_view(),
            all_attrs@,
            0,
        ) {
            None => r is Ok,
            Some(message) => r matches Err(e) && e.deep_view() == message,
        },
{
    let ghost whole = transition_problem(
        pre_transition_attrs@,
        pre_transition_config@,
        node.deep_view(),
        all_attrs@,
        0,
    );
    let mut i: usize = 0;
    while i < pre_transition_attrs.len()
        invariant
            0 <= i <= pre_transition_attrs@.len(),
            whole == transition_problem(
                pre_transition_attrs@,
                pre_transition_config@,
                node.deep_view(),
                all_attrs@,
                0,
            ),
            whole == transition_problem(
                pre_transition_attrs@,
                pre_transition_config@,
                node.deep_view(),
                all_attrs@,
                i as int,
            ),
        decreases pre_transition_attrs.len() - i,
    {
        let attr = &pre_transition_attrs[i];
        match &attr.after {
            None => {
                let mut message = concat3(
                    "Attr ",
                    attr.name.as_str(),
                    " was not found in transition for target ",
                );
                message.append(node.display().as_str());
                message.append(" (");
                message.append(all_attrs);
                message.append(")");
                return Err(InputError { message });
            },
            Some((after, same)) => {
                if !*same {
                    let mut message = concat3(
                        "Target ",
                        node.unconfigured.as_str(),
                        " configuration transitioned\nold: ",
                    );
                    message.append(pre_transition_config);
                    message.append("\nnew: ");
                    message.append(node.cfg.as_str());
                    message.append("\nbut attribute: ");
                    message.append(attr.name.as_str());
                    message.append("\nresolved with old configuration to: ");
                    message.append(attr.before.as_str());
                    message.append("\nresolved with new configuration to: ");
                    message.append(after.as_str());
                    return Err(InputError { message });
                }
            },
        }
        i += 1;
    }
    Ok(())
}

/// What is said of a transition that goes on from where it led.
pub open spec fn not_idempotent(target: Text, first: Text, second: Text, third: Text) -> Text {
    "idempotence should have been enforced by transition idempotence and attr change checks: Target "@
        + target
        + " configuration transition is not idempotent\n         in initial configuration  `"@
        + first + "`\n         first transitioned to cfg `"@ + second
        + "`\n         then transitions to cfg   `"@ + third
        + "`\n         Use `buck2 audit configurations "@ + first + " "@ + second + " "@ + third
        + "` to see the configurations."@
}

/// Checks what a target is after its transition: the attributes that the
/// transition saw are the same where that is asked for, and the target goes on
/// to no other configuration.
pub fn check_transitioned_node(
    before: &ConfiguredTargetLabel,
    after: &ConfiguredTargetLabel,
    requires_post_transition_attr_check: bool,
    pre_transition_attrs: &Vec<TransitionedAttr>,
    pre_transition_config: &str,
    all_attrs: &str,
    forwards_to: Option<&str>,
) -> (r: Result<(), InputError>)
    ensures
        ({
            let problem = transition_problem(
                pre_transition_attrs@,
                pre_transition_config@,
                after.deep_view(),
                all_attrs@,
                0,
            );
            if requires_post_transition_attr_check && problem is Some {
                r matches Err(e) && e.deep_view() == problem->0
            } else {
                match forwards_to.deep_view() {
                    Some(third) => r matches Err(e) && e.deep_view() == not_idempotent(
                        before.unconfigured@,
                        before.cfg@,
                        after.cfg@,
                        third,
                    ),
                    None => r is Ok,
                }
            }
        }),
{
    if requires_post_transition_attr_check {
        match verify_transitioned_attrs(
            pre_transition_attrs,
            pre_transition_config,
            after,
            all_attrs,
        ) {
            Ok(_) => {},
            Err(e) => {
                return Err(e);
            },
        }
    }
    match forwards_to {
        Some(third) => {
            let mut message = concat3(
                "idempotence should have been enforced by transition idempotence and attr change checks: Target ",
                before.unconfigured.as_str(),
                " configuration transition is not idempotent\n         in initial configuration  `",
            );
            message.append(before.cfg.as_str());
            message.append("`\n         first transitioned to cfg `");
            message.append(after.cfg.as_str());
            message.append("`\n         then transitions to cfg   `");
            message.append(third);
            message.append("`\n         Use `buck2 audit configurations ");
            message.append(before.cfg.as_str());
            message.append(" ");
            message.append(after.cfg.as_str());
            message.append(" ");
            message.append(third);
            message.append("` to see the configurations.");
            Err(InputError { message })
        },
        None => Ok(()),
    }
}

/// A chain of targets, each depending on the next, at the end of which an error
/// came up.
#[derive(Debug, PartialEq, Eq)]
pub struct LookingUpConfiguredNodeContext {
    pub targets: Vec<ConfiguredTargetLabel>,
}

/// The lines of the first `n` targets of a chain: each with its configuration, or a
/// mark where that is the one before.
pub open spec fn chain_lines(targets: Seq<ConfiguredLabel>, n: int) -> Text
    decreases n,
{
    if n <= 0 || n > targets.len() {
        seq![]
    } else {
        let target = targets[n - 1];
        chain_lines(targets, n - 1) + "    "@ + (if n == 1 {
            "   "@
        } else {
            "-> "@
        }) + target.unconfigured + " ("@ + (if n > 1 && targets[n - 2].cfg == target.cfg {
            "^"@
        } else {
            target.cfg
        }) + ")\n"@
    }
}

/// The chain in words.
pub open spec fn chain_text(targets: Seq<ConfiguredLabel>) -> Text {
    if targets.len() == 1 {
        "Error looking up configured node "@ + targets[0].text()
    } else {
        "Error in configured node dependency, dependency chain follows (-> indicates depends on, ^ indicates same configuration as previous):\n"@
            + chain_lines(targets, targets.len() as int)
    }
}

impl LookingUpConfiguredNodeContext {
    /// The chain of a target in front of another.
    pub fn new(target: ConfiguredTargetLabel, parent: Option<&Self>) -> (r: Self)
        ensures
            r.targets.deep_view() == seq![target.deep_view()] + (match parent {
                Some(parent) => parent.targets.deep_view(),
                None => seq![],
            }),
    {
        let ghost t = target.deep_view();
        let mut targets: Vec<ConfiguredTargetLabel> = Vec::new();
        targets.push(target);
        assert(targets.deep_view() =~= seq![t]);
        match parent {
            Some(parent) => {
                let mut rest = parent.targets.duplicate();
                let ghost p = rest.deep_view();
                targets.append(&mut rest);
                assert(targets.deep_view() =~= seq![t] + p);
            },
            None => {
                assert(seq![t] + seq![] =~= seq![t]);
            },
        }
        LookingUpConfiguredNodeContext { targets }
    }

    /// The chain in words.
    pub fn display(&self) -> (r: String)
        requires
            self.targets@.len() > 0,
        ensures
            r@ == chain_text(self.targets.deep_view()),
    {
        let ghost model = self.targets.deep_view();
        assert(model.len() == self.targets@.len());
        if self.targets.len() == 1 {
            assert(model[0] == self.targets@[0].deep_view());
            return concat(
                "Error looking up configured node ",
                self.targets[0].display().as_str(),
            );
        }
        let mut text =
            "Error in configured node dependency, dependency chain follows (-> indicates depends on, ^ indicates same configuration as previous):\n".to_owned();
        let ghost first = text@;
        let mut i: usize = 0;
        assert(first + seq![] =~= first);
        while i < self.targets.len()
            invariant
                model == self.targets.deep_view(),
                0 <= i <= self.targets@.len(),
                text@ =~= first + chain_lines(model, i as int),
            decreases self.targets.len() - i,
        {
            let target = &self.targets[i];
            assert(model[i as int] == target.deep_view());
            text.append("    ");
            if i == 0 {
                text.append("   ");
            } else {
                text.append("-> ");
            }
            text.append(target.unconfigured.as_str());
            text.append(" (");
            if i > 0 && same(self.targets[i - 1].cfg.as_str(), target.cfg.as_str()) {
                assert(model[i - 1] == self.targets@[i - 1].deep_view());
                text.append("^");
            } else {
                assert(i > 0 ==> model[i - 1] == self.targets@[i - 1].deep_view());
                text.append(target.cfg.as_str());
            }
            text.append(")\n");
            i += 1;
        }
        text
    }
}

/// Whether a target that only a dependency makes incompatible is an error: where
/// a pattern says so and none excludes it.
pub fn check_error_on_incompatible_dep(excluded: &Vec<bool>, enabled: &Vec<bool>) -> (r: bool)
    ensures
        r == (!excluded@.contains(true) && enabled@.contains(true)),
{
    !some_pattern_matches(excluded) && some_pattern_matches(enabled)
}

fn some_pattern_matches(matches: &Vec<bool>) -> (r: bool)
    ensures
        r == matches@.contains(true),
{
    let mut i: usize = 0;
    while i < matches.len()
        invariant
            0 <= i <= matches@.len(),
            forall|j: int| 0 <= j < i ==> !#[trigger] matches@[j],
        decreases matches.len() - i,
    {
        if matches[i] {
            assert(matches@[i as int] == true);
            return true;
        }
        i += 1;
    }
    false
}

/// The categories whose patterns match.
pub open spec fn matching_categories(categories: Seq<(Text, bool)>) -> Seq<Text>
    decreases categories.len(),
{
    if categories.len() == 0 {
        seq![]
    } else if categories.last().1 {
        matching_categories(categories.drop_last()).push(categories.last().0)
    } else {
        matching_categories(categories.drop_last())
    }
}

/// The categories of soft errors whose patterns match a target.
pub fn get_dep_only_incompatible_custom_soft_error(categories: &Vec<(String, bool)>) -> (r: Vec<
    String,
>)
    ensures
        r.deep_view() == matching_categories(categories.deep_view()),
{
    let ghost model = categories.deep_view();
    let mut out: Vec<String> = Vec::new();
    assert(out.deep_view() =~= seq![]);
    let mut i: usize = 0;
    while i < categories.len()
        invariant
            model == categories.deep_view(),
            0 <= i <= categories@.len(),
            out.deep_view() == matching_categories(model.take(i as int)),
        decreases categories.len() - i,
    {
        let ghost before = out.deep_view();
        proof {
            let t = model.take(i + 1);
            assert(t.drop_last() =~= model.take(i as int));
            assert(t.last() == (categories@[i as int].0@, categories@[i as int].1));
        }
        if categories[i].1 {
            out.push(categories[i].0.clone());
            assert(out.deep_view() =~= before.push(categories@[i as int].0@));
        }
        i += 1;
    }
    assert(model.take(i as int) =~= model);
    out
}

/// What an incompatible target comes to where that is looked at: what only a
/// dependency makes incompatible can be an error.
#[derive(Debug, PartialEq, Eq)]
pub enum IncompatibleOutcome {
    AsItIs,
    Error,
    SoftErrors(Vec<String>),
}

/// What an incompatible target comes to.
pub fn incompatible_outcome(
    check_dependency_incompatibility: bool,
    reason: &IncompatiblePlatformReason,
    error_on_incompatible_dep: bool,
    custom_soft_errors: Vec<String>,
) -> (r: IncompatibleOutcome)
    ensures
        if !check_dependency_incompatibility || reason.deep_view().targets.len() <= 1 {
            r is AsItIs
        } else if error_on_incompatible_dep {
            r is Error
        } else {
            r matches IncompatibleOutcome::SoftErrors(found) && found.deep_view()
                == custom_soft_errors.deep_view()
        },
{
    assert(reason.deep_view().targets.len() == reason.targets@.len());
    if !check_dependency_incompatibility || reason.targets.len() <= 1 {
        IncompatibleOutcome::AsItIs
    } else if error_on_incompatible_dep {
        IncompatibleOutcome::Error
    } else {
        IncompatibleOutcome::SoftErrors(custom_soft_errors)
    }
}

proof fn lemma_settings_met(
    list: Seq<Result<(String, bool), InputError>>,
    i: int,
    some_met: bool,
    first_unmet: Option<Text>,
)
    requires
        0 <= i <= list.len(),
        forall|j: int| 0 <= j < list.len() ==> #[trigger] list[j] is Ok,
    ensures
        settings_met(list, i, some_met, first_unmet) is Ok,
        settings_met(list, i, some_met, first_unmet)->Ok_0.0 <==> some_met || exists|j: int|
            i <= j < list.len() && (#[trigger] list[j])->Ok_0.1,
        first_unmet is Some ==> settings_met(list, i, some_met, first_unmet)->Ok_0.1 == first_unmet,
        first_unmet is None ==> match settings_met(list, i, some_met, first_unmet)->Ok_0.1 {
            None => forall|j: int| i <= j < list.len() ==> (#[trigger] list[j])->Ok_0.1,
            Some(label) => exists|j: int|
                {
                    &&& i <= j < list.len() && !(#[trigger] list[j])->Ok_0.1
                    &&& list[j]->Ok_0.0@ == label
                    &&& forall|k: int| i <= k < j ==> (#[trigger] list[k])->Ok_0.1
                },
        },
    decreases list.len() - i,
{
    if i < list.len() {
        assert(list[i] is Ok);
        let (label, met) = list[i]->Ok_0;
        let next = if met || first_unmet is Some {
            first_unmet
        } else {
            Some(label@)
        };
        lemma_settings_met(list, i + 1, some_met || met, next);
        if first_unmet is None && met {
            if let Some(found) = settings_met(list, i + 1, some_met || met, next)->Ok_0.1 {
                let j = choose|j: int|
                    {
                        &&& i + 1 <= j < list.len() && !(#[trigger] list[j])->Ok_0.1
                        &&& list[j]->Ok_0.0@ == found
                        &&& forall|k: int| i + 1 <= k < j ==> (#[trigger] list[k])->Ok_0.1
                    };
                assert(!list[j]->Ok_0.1);
            }
        }
    }
}

/// Of `target_compatible_with` all settings have to be met: the target is compatible
/// exactly where they are, and otherwise the first that is not stands in the way.
pub proof fn law_compatible_with_all(
    label: Text,
    settings: Vec<Result<(String, bool), InputError>>,
)
    requires
        settings@.len() > 0,
        forall|j: int| 0 <= j < settings@.len() ==> #[trigger] settings@[j] is Ok,
    ensures
        match compatible(label, Some(CompatibleWith::List(settings)), None) {
            Ok(None) => forall|j: int|
                0 <= j < settings@.len() ==> (#[trigger] settings@[j])->Ok_0.1,
            Ok(Some(unmet)) => exists|j: int|
                {
                    &&& 0 <= j < settings@.len() && !(#[trigger] settings@[j])->Ok_0.1
                    &&& settings@[j]->Ok_0.0@ == unmet
                    &&& forall|k: int| 0 <= k < j ==> (#[trigger] settings@[k])->Ok_0.1
                },
            Err(_) => false,
        },
{
    lemma_settings_met(settings@, 0, false, None);
}

/// Of `compatible_with` one setting is enough: the target is compatible exactly where some
/// setting is met, and otherwise the first stands in the way.
pub proof fn law_compatible_with_any(
    label: Text,
    settings: Vec<Result<(String, bool), InputError>>,
)
    requires
        settings@.len() > 0,
        forall|j: int| 0 <= j < settings@.len() ==> #[trigger] settings@[j] is Ok,
    ensures
        match compatible(label, None, Some(CompatibleWith::List(settings))) {
            Ok(None) => exists|j: int|
                0 <= j < settings@.len() && (#[trigger] settings@[j])->Ok_0.1,
            Ok(Some(unmet)) => unmet == settings@[0]->Ok_0.0@ && forall|j: int|
                0 <= j < settings@.len() ==> !(#[trigger] settings@[j])->Ok_0.1,
            Err(_) => false,
        },
{
    lemma_settings_met(settings@, 0, false, None);
    if let Ok(Some(unmet)) = compatible(label, None, Some(CompatibleWith::List(settings))) {
        assert(!settings@[0]->Ok_0.1);
    } else if compatible(label, None, Some(CompatibleWith::List(settings))) == Ok::<
        Option<Text>,
        Text,
    >(None) {
        if forall|j: int| 0 <= j < settings@.len() ==> !(#[trigger] settings@[j])->Ok_0.1 {
            assert(!settings@[0]->Ok_0.1);
        }
    }
}

/// Lists without a setting ask for nothing, and two lists with settings are an error.
pub proof fn law_compatible_lists(
    label: Text,
    all_of: Vec<Result<(String, bool), InputError>>,
    any_of: Vec<Result<(String, bool), InputError>>,
)
    ensures
        compatible(label, None, None) == Ok::<Option<Text>, Text>(None),
        all_of@.len() == 0 && any_of@.len() == 0 ==> compatible(
            label,
            Some(CompatibleWith::List(all_of)),
            Some(CompatibleWith::List(any_of)),
        ) == Ok::<Option<Text>, Text>(None),
        all_of@.len() > 0 && any_of@.len() > 0 ==> compatible(
            label,
            Some(CompatibleWith::List(all_of)),
            Some(CompatibleWith::List(any_of)),
        ) is Err,
        all_of@.len() == 0 ==> compatible(
            label,
            Some(CompatibleWith::List(all_of)),
            Some(CompatibleWith::List(any_of)),
        ) == compatible(label, None, Some(CompatibleWith::List(any_of))),
        any_of@.len() == 0 ==> compatible(
            label,
            Some(CompatibleWith::List(all_of)),
            Some(CompatibleWith::List(any_of)),
        ) == compatible(label, Some(CompatibleWith::List(all_of)), None),
{
}

/// A rule for toolchains needs a configuration for execution, and any other rule but a
/// Bazel one must not have one; all other targets are computed.
pub proof fn law_toolchain_rules(
    has_exec_cfg: bool,
    is_toolchain_rule: bool,
    is_bazel_rule: bool,
    is_bazel_input_file: bool,
    incoming: IncomingTransition,
    plan: NodePlan,
)
    requires
        call_ensures(
            configured_target_node_plan,
            (has_exec_cfg, is_toolchain_rule, is_bazel_rule, is_bazel_input_file, &incoming),
            plan,
        ),
    ensures
        plan is ToolchainUsedAsNormalDep <==> is_toolchain_rule && !has_exec_cfg,
        plan is NonToolchainUsedAsToolchainDep <==> has_exec_cfg && !is_toolchain_rule
            && !is_bazel_rule,
        plan is InputFile ==> is_bazel_input_file,
        plan is BazelPlatform ==> is_bazel_rule && !is_bazel_input_file,
        plan is Direct ==> !is_bazel_rule && !is_bazel_input_file,
        incoming matches IncomingTransition::Fixed(id) ==> (plan is BazelPlatform || plan is Direct
            ==> false) && (plan matches NodePlan::Transition(found) ==> found@ == id@),
{
}

/// A transition leads to the same target under the new configuration, and to none for
/// execution; where that is the label itself it leads nowhere.
pub proof fn law_label_after_transition(
    before: ConfiguredTargetLabel,
    cfg: &str,
    after: Option<ConfiguredTargetLabel>,
)
    requires
        call_ensures(label_after_transition, (&before, cfg), after),
    ensures
        after matches Some(label) ==> label.unconfigured@ == before.unconfigured@ && label.cfg@
            == cfg@ && label.exec_cfg is None,
        after is None <==> before.cfg@ == cfg@ && before.exec_cfg is None,
{
}

/// On a platform a target is the same under the configuration of the platform, with the
/// configuration for execution that it had.
pub proof fn law_label_on_platform(
    before: ConfiguredTargetLabel,
    cfg: &str,
    after: Option<ConfiguredTargetLabel>,
)
    requires
        call_ensures(label_on_bazel_platform, (&before, cfg), after),
    ensures
        after matches Some(label) ==> label.unconfigured@ == before.unconfigured@ && label.cfg@
            == cfg@ && label.exec_cfg.deep_view() == before.exec_cfg.deep_view(),
        after is None <==> before.cfg@ == cfg@,
{
}

/// A target that is incompatible by itself stays so; one that only a dependency makes
/// incompatible is an error where that is asked for, and else gives the soft errors.
pub proof fn law_incompatible_outcome(
    checked: bool,
    reason: IncompatiblePlatformReason,
    is_error: bool,
    categories: Vec<String>,
    outcome: IncompatibleOutcome,
)
    requires
        call_ensures(incompatible_outcome, (checked, &reason, is_error, categories), outcome),
    ensures
        outcome is AsItIs <==> !checked || reason.targets@.len() <= 1,
        outcome is Error <==> checked && reason.targets@.len() > 1 && is_error,
        outcome matches IncompatibleOutcome::SoftErrors(found) ==> found.deep_view()
            == categories.deep_view(),
{
    assert(reason.deep_view().targets.len() == reason.targets@.len());
}

/// Whether what only a dependency makes incompatible is an error: some pattern says so, and
/// none that excludes the target matches.
pub proof fn law_error_on_incompatible_dep(excluded: Vec<bool>, enabled: Vec<bool>, is_error: bool)
    requires
        call_ensures(check_error_on_incompatible_dep, (&excluded, &enabled), is_error),
    ensures
        excluded@.contains(true) ==> !is_error,
        !excluded@.contains(true) && enabled@.contains(true) ==> is_error,
        enabled@.len() == 0 ==> !is_error,
{
}

/// A category of soft errors is reported exactly where its patterns match.
pub proof fn law_matching_categories(categories: Seq<(Text, bool)>, category: Text)
    ensures
        matching_categories(categories).contains(category) <==> exists|i: int|
            0 <= i < categories.len() && #[trigger] categories[i] == (category, true),
    decreases categories.len(),
{
    if categories.len() > 0 {
        let init = categories.drop_last();
        law_matching_categories(init, category);
        lemma_push_contains(matching_categories(init), categories.last().0, category);
        assert(categories[categories.len() - 1] == categories.last());
        if exists|i: int| 0 <= i < init.len() && #[trigger] init[i] == (category, true) {
            let i = choose|i: int| 0 <= i < init.len() && #[trigger] init[i] == (category, true);
            assert(categories[i] == (category, true));
        }
        if exists|i: int| 0 <= i < categories.len() && #[trigger] categories[i] == (
            category,
            true,
        ) {
            let i = choose|i: int|
                0 <= i < categories.len() && #[trigger] categories[i] == (category, true);
            if i < init.len() {
                assert(init[i] == (category, true));
            }
        }
    } else {
        assert(!matching_categories(categories).contains(category));
    }
}

/// A transition that has to leave its attributes alone does so exactly where each that it
/// saw is still there and the same.
pub proof fn law_attributes_unchanged(
    attrs: Seq<TransitionedAttr>,
    old_cfg: Text,
    label: ConfiguredLabel,
    all_attrs: Text,
    i: int,
)
    requires
        0 <= i <= attrs.len(),
    ensures
        transition_problem(attrs, old_cfg, label, all_attrs, i) is None <==> forall|j: int|
            i <= j < attrs.len() ==> ((#[trigger] attrs[j]).after matches Some((_, same)) && same),
    decreases attrs.len() - i,
{
    if i < attrs.len() {
        law_attributes_unchanged(attrs, old_cfg, label, all_attrs, i + 1);
        if !(attrs[i].after matches Some((_, same)) && same) {
            assert(!(attrs[i].after matches Some((_, same)) && same));
        }
    }
}

} // verus!
