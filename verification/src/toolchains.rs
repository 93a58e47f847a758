//! Which toolchains a target gets.

use starlark_map::small_map::SmallMap;
use vstd::prelude::*;
use vstd::string::*;
use crate::attrs::{
    CoercedAttr, attr_bool, attr_target_label, attr_target_labels, bool_value, labels_among,
    target_label, target_labels,
};
use crate::dep_maps::{
    law_lookup_placed, new_toolchain_map, placed, toolchain_entries, toolchain_get,
    toolchain_insert, toolchain_items,
};
use crate::module::InputError;
use crate::ordered::{
    Duplicate, KeyMap, dedup, dedup_preserve_order, law_dedup, lookup, result_view,
};
use crate::text::{
    Text, chars_of, concat3, contains_char, lemma_find_from, lemma_rfind_from, occurs_at,
    rfind_from, rsplit_once, rsplit_once_of, same, split_once, split_once_of, trim_start_char,
    trim_start_char_of,
};

verus! {

/// The key of a toolchain type, without the marks in front.
pub fn normalize_bazel_toolchain_key(key: &str) -> (r: String)
    ensures
        r@ == trim_start_char(key@, '@'),
{
    trim_start_char_of(key, '@').to_owned()
}

/// Two keys stand for the same type: they are the same, or differ only in the
/// cell.
pub open spec fn keys_match(declared: Text, candidate: Text) -> bool {
    declared == candidate || match (split_once(declared, "//"@), split_once(candidate, "//"@)) {
        (Some((_, a)), Some((_, b))) => a == b,
        _ => false,
    }
}

/// Whether two keys stand for the same type.
pub fn bazel_toolchain_keys_match(declared: &str, candidate: &str) -> (r: bool)
    ensures
        r == keys_match(declared@, candidate@),
{
    if same(declared, candidate) {
        return true;
    }
    match (split_once_of(declared, "//"), split_once_of(candidate, "//")) {
        (Some((_, a)), Some((_, b))) => same(a, b),
        _ => false,
    }
}

/// Matching keys is an equivalence.
pub proof fn law_keys_match(a: Text, b: Text, c: Text)
    ensures
        keys_match(a, a),
        keys_match(a, b) ==> keys_match(b, a),
        keys_match(a, b) && keys_match(b, c) ==> keys_match(a, c),
{
}

/// The rule is of a kind: by its whole name or by what follows the last colon.
pub open spec fn is_kind(rule_type: Text, kind: Text) -> bool {
    rule_type == kind || match rsplit_once(rule_type, ":"@) {
        Some((_, name)) => name == kind,
        None => false,
    }
}

/// Whether a rule is of a kind.
pub fn bazel_rule_kind_is(rule_type: &str, kind: &str) -> (r: bool)
    ensures
        r == is_kind(rule_type@, kind@),
{
    if same(rule_type, kind) {
        return true;
    }
    match rsplit_once_of(rule_type, ":") {
        Some((_, name)) => same(name, kind),
        None => false,
    }
}

/// A bare name of a target in the same package.
pub open spec fn is_shorthand(value: Text) -> bool {
    &&& value.len() > 0
    &&& value[0] != '@' && value[0] != ':' && value[0] != '/' && value[0] != '.'
    &&& !value.contains('/') && !value.contains(':') && !value.contains('[') && !value.contains(
        ']',
    )
}

/// Whether a text is a bare name of a target in the same package.
pub fn is_bazel_relative_target_shorthand(value: &str) -> (r: bool)
    ensures
        r == is_shorthand(value@),
{
    let chars = chars_of(value);
    if chars.len() == 0 {
        return false;
    }
    let c = chars[0];
    c != '@' && c != ':' && c != '/' && c != '.' && !contains_char(value, '/') && !contains_char(
        value,
        ':',
    ) && !contains_char(value, '[') && !contains_char(value, ']')
}

/// The label that a text stands for: as it was parsed, or, where that failed and
/// it is a bare name, as it was parsed behind a colon.
pub open spec fn nodep_label(
    value: Text,
    parsed: Result<Text, Text>,
    behind_colon: Result<Text, Text>,
) -> Result<Text, Text> {
    if parsed is Err && is_shorthand(value) {
        behind_colon
    } else {
        parsed
    }
}

/// The label that a text stands for.
pub fn parse_bazel_nodep_label(
    value: &str,
    parsed: Result<String, InputError>,
    behind_colon: Result<String, InputError>,
) -> (r: Result<String, InputError>)
    ensures
        result_view(r) == nodep_label(value@, result_view(parsed), result_view(behind_colon)),
{
    match parsed {
        Ok(label) => Ok(label),
        Err(e) => if is_bazel_relative_target_shorthand(value) {
            behind_colon
        } else {
            Err(e)
        },
    }
}

/// The target that implements a toolchain: what a text was parsed as, or the
/// label that the attribute is.
pub fn bazel_toolchain_implementation_label(
    attr: &CoercedAttr,
    parsed: Result<String, InputError>,
) -> (r: Result<Option<String>, InputError>)
    ensures
        match attr {
            CoercedAttr::String(_) => match parsed {
                Ok(label) => r matches Ok(Some(found)) && found@ == label@,
                Err(e) => r matches Err(found) && found.deep_view() == e.deep_view(),
            },
            _ => r matches Ok(found) && found.deep_view() == target_label(*attr),
        },
{
    match attr {
        CoercedAttr::String(_) => match parsed {
            Ok(label) => Ok(Some(label)),
            Err(e) => Err(e),
        },
        _ => match attr_target_label(attr) {
            Some(label) => Ok(Some(label.clone())),
            None => Ok(None),
        },
    }
}

/// What is known of a target: the type of its rule, and what it is an alias of;
/// or why it could not be looked up.
pub enum KnownTarget {
    Target { rule_type: String, actual: Option<CoercedAttr> },
    Failed(InputError),
}

/// The model of [`KnownTarget`].
pub enum KnownTargetModel {
    Target(Text, Option<Text>),
    Failed(Text),
}

impl DeepView for KnownTarget {
    type V = KnownTargetModel;

    open spec fn deep_view(&self) -> KnownTargetModel {
        match self {
            KnownTarget::Target { rule_type, actual } => KnownTargetModel::Target(
                rule_type@,
                match actual {
                    Some(attr) => target_label(*attr),
                    None => None,
                },
            ),
            KnownTarget::Failed(e) => KnownTargetModel::Failed(e.deep_view()),
        }
    }
}

/// The targets that are known, by their labels.
pub type KnownTargets = Seq<(Text, KnownTargetModel)>;

/// What ends a search among targets before its time: a target that has to be
/// looked up, or an error.
#[derive(Debug, PartialEq, Eq)]
pub enum TargetStop {
    NeedsTarget(String),
    Failed(InputError),
}

/// The model of [`TargetStop`].
pub enum TargetStopModel {
    NeedsTarget(Text),
    Failed(Text),
}

impl DeepView for TargetStop {
    type V = TargetStopModel;

    open spec fn deep_view(&self) -> TargetStopModel {
        match self {
            TargetStop::NeedsTarget(label) => TargetStopModel::NeedsTarget(label@),
            TargetStop::Failed(e) => TargetStopModel::Failed(e.deep_view()),
        }
    }
}

/// What a label stands for, through at most so many aliases.
pub open spec fn alias_target(known: KnownTargets, label: Text, steps: nat) -> Result<
    Text,
    TargetStopModel,
>
    decreases steps,
{
    if steps == 0 {
        Ok(label)
    } else {
        match lookup(known, label) {
            None => Err(TargetStopModel::NeedsTarget(label)),
            Some(KnownTargetModel::Failed(e)) => Err(TargetStopModel::Failed(e)),
            Some(KnownTargetModel::Target(rule_type, actual)) => if !is_kind(rule_type, "alias"@) {
                Ok(label)
            } else {
                match actual {
                    None => Ok(label),
                    Some(actual) => if actual == label {
                        Ok(label)
                    } else {
                        alias_target(known, actual, (steps - 1) as nat)
                    },
                }
            },
        }
    }
}

/// What a label stands for, through at most sixteen aliases.
pub fn resolve_bazel_alias(known: &KeyMap<String, KnownTarget>, label: &str) -> (r: Result<
    String,
    TargetStop,
>)
    ensures
        alias_target(known.deep_view(), label@, 16) == (match r {
            Ok(found) => Ok::<Text, TargetStopModel>(found@),
            Err(stop) => Err(stop.deep_view()),
        }),
{
    let ghost k = known.deep_view();
    let ghost whole = alias_target(k, label@, 16);
    let mut current = label.to_owned();
    let mut steps: usize = 16;
    while steps > 0
        invariant
            k == known.deep_view(),
            whole == alias_target(k, label@, 16),
            whole == alias_target(k, current@, steps as nat),
        decreases steps,
    {
        match known.get(&current) {
            None => {
                return Err(TargetStop::NeedsTarget(current));
            },
            Some(KnownTarget::Failed(e)) => {
                return Err(TargetStop::Failed(e.duplicate()));
            },
            Some(KnownTarget::Target { rule_type, actual }) => {
                if !bazel_rule_kind_is(rule_type.as_str(), "alias") {
                    return Ok(current);
                }
                let next = match actual {
                    Some(attr) => attr_target_label(attr),
                    None => None,
                };
                match next {
                    None => {
                        return Ok(current);
                    },
                    Some(actual) => {
                        if same(actual.as_str(), current.as_str()) {
                            return Ok(current);
                        }
                        current = actual.clone();
                    },
                }
            },
        }
        steps -= 1;
    }
    Ok(current)
}

/// The key that a toolchain type goes by: what its label stands for, without the marks
/// in front, or the type as it is written where that is no label.
pub fn resolve_bazel_toolchain_type_alias(
    known: &KeyMap<String, KnownTarget>,
    toolchain_type: &str,
    label: Option<&str>,
) -> (r: Result<String, TargetStop>)
    ensures
        (match label.deep_view() {
            None => Ok::<Text, TargetStopModel>(toolchain_type@),
            Some(label) => match alias_target(known.deep_view(), label, 16) {
                Ok(actual) => Ok(trim_start_char(actual, '@')),
                Err(stop) => Err(stop),
            },
        }) == (match r {
            Ok(found) => Ok::<Text, TargetStopModel>(found@),
            Err(stop) => Err(stop.deep_view()),
        }),
{
    match label {
        None => Ok(toolchain_type.to_owned()),
        Some(label) => match resolve_bazel_alias(known, label) {
            Ok(actual) => Ok(normalize_bazel_toolchain_key(actual.as_str())),
            Err(stop) => Err(stop),
        },
    }
}

/// Whether a configuration meets all settings: no setting is always met, and
/// without a configuration none is.
pub fn configuration_settings_match(bound: bool, met: &Vec<bool>) -> (r: bool)
    ensures
        r == (met@.len() == 0 || (bound && !met@.contains(false))),
{
    if met.len() == 0 {
        return true;
    }
    if !bound {
        return false;
    }
    let mut i: usize = 0;
    while i < met.len()
        invariant
            0 <= i <= met@.len(),
            forall|j: int| 0 <= j < i ==> #[trigger] met@[j],
        decreases met.len() - i,
    {
        if !met[i] {
            assert(met@[i as int] == false);
            return false;
        }
        i += 1;
    }
    true
}

/// The constraints of a platform: for each setting its value.
pub type Constraints = Seq<(Text, Text)>;

/// Some constraint has that value.
pub open spec fn has_constraint_value(constraints: Constraints, value: Text) -> bool {
    exists|i: int| 0 <= i < constraints.len() && (#[trigger] constraints[i]).1 == value
}

/// Whether some constraint has that value.
pub fn platform_constraints_contain_label(
    platform_constraints: &KeyMap<String, String>,
    constraint_value: &str,
) -> (r: bool)
    ensures
        r == has_constraint_value(platform_constraints.deep_view(), constraint_value@),
{
    let entries = &platform_constraints.entries;
    let mut i: usize = 0;
    while i < entries.len()
        invariant
            *entries == platform_constraints.entries,
            0 <= i <= entries@.len(),
            forall|j: int|
                0 <= j < i ==> (#[trigger] platform_constraints.deep_view()[j]).1
                    != constraint_value@,
        decreases entries.len() - i,
    {
        assert(platform_constraints.deep_view()[i as int] == entries@[i as int].deep_view());
        if same(entries[i].1.as_str(), constraint_value) {
            return true;
        }
        i += 1;
    }
    false
}

/// Whether a platform has all the values from `i` on, each by its label or by
/// what that stands for.
pub open spec fn has_values(
    known: KnownTargets,
    constraints: Constraints,
    values: Seq<Text>,
    i: int,
) -> Result<bool, TargetStopModel>
    decreases values.len() - i,
{
    if i < 0 || i >= values.len() {
        Ok(true)
    } else if has_constraint_value(constraints, values[i]) {
        has_values(known, constraints, values, i + 1)
    } else {
        match alias_target(known, values[i], 16) {
            Err(stop) => Err(stop),
            Ok(resolved) => if has_constraint_value(constraints, resolved) {
                has_values(known, constraints, values, i + 1)
            } else {
                Ok(false)
            },
        }
    }
}

/// A platform: its constraints, or none where it is not bound.
pub open spec fn platform_has_values(
    known: KnownTargets,
    platform: Option<Constraints>,
    values: Seq<Text>,
) -> Result<bool, TargetStopModel> {
    if values.len() == 0 {
        Ok(true)
    } else {
        match platform {
            None => Ok(false),
            Some(constraints) => has_values(known, constraints, values, 0),
        }
    }
}

/// Whether a platform has all the values.
pub fn platform_contains_constraint_values(
    known: &KeyMap<String, KnownTarget>,
    platform: &Option<KeyMap<String, String>>,
    constraint_values: &Vec<String>,
) -> (r: Result<bool, TargetStop>)
    ensures
        platform_has_values(
            known.deep_view(),
            platform.deep_view(),
            constraint_values.deep_view(),
        ) == (match r {
            Ok(yes) => Ok::<bool, TargetStopModel>(yes),
            Err(stop) => Err(stop.deep_view()),
        }),
{
    let ghost values = constraint_values.deep_view();
    assert(values.len() == constraint_values@.len());
    if constraint_values.len() == 0 {
        return Ok(true);
    }
    let constraints = match platform {
        Some(constraints) => constraints,
        None => {
            return Ok(false);
        },
    };
    let ghost c = constraints.deep_view();
    let ghost k = known.deep_view();
    let ghost whole = has_values(k, c, values, 0);
    let mut i: usize = 0;
    while i < constraint_values.len()
        invariant
            values == constraint_values.deep_view(),
            c == constraints.deep_view(),
            k == known.deep_view(),
            0 <= i <= constraint_values@.len(),
            whole == platform_has_values(k, platform.deep_view(), values),
            whole == has_values(k, c, values, i as int),
        decreases constraint_values.len() - i,
    {
        assert(values[i as int] == constraint_values@[i as int]@);
        let value = constraint_values[i].as_str();
        if !platform_constraints_contain_label(constraints, value) {
            match resolve_bazel_alias(known, value) {
                Err(stop) => {
                    return Err(stop);
                },
                Ok(resolved) => {
                    if !platform_constraints_contain_label(constraints, resolved.as_str()) {
                        return Ok(false);
                    }
                },
            }
        }
        i += 1;
    }
    Ok(true)
}

/// Every constraint of the second platform is one of the first.
pub open spec fn includes_constraints(platform: Constraints, required: Constraints) -> bool {
    forall|i: int|
        0 <= i < required.len() ==> lookup(platform, (#[trigger] required[i]).0) == Some(
            required[i].1,
        )
}

/// Whether a platform has every constraint of another; without either it has not.
pub fn platform_contains_platform_constraints(
    platform: &Option<KeyMap<String, String>>,
    required: &Option<KeyMap<String, String>>,
) -> (r: bool)
    ensures
        r == (platform is Some && required is Some && includes_constraints(
            platform.deep_view()->0,
            required.deep_view()->0,
        )),
{
    match (platform, required) {
        (Some(own), Some(wanted)) => {
            let mut i: usize = 0;
            while i < wanted.entries.len()
                invariant
                    0 <= i <= wanted.entries@.len(),
                    platform.deep_view() == Some(own.deep_view()),
                    required.deep_view() == Some(wanted.deep_view()),
                    forall|j: int|
                        0 <= j < i ==> lookup(
                            own.deep_view(),
                            (#[trigger] wanted.deep_view()[j]).0,
                        ) == Some(wanted.deep_view()[j].1),
                decreases wanted.entries.len() - i,
            {
                assert(wanted.deep_view()[i as int] == wanted.entries@[i as int].deep_view());
                let met = match own.get(&wanted.entries[i].0) {
                    Some(actual) => same(actual.as_str(), wanted.entries[i].1.as_str()),
                    None => false,
                };
                if !met {
                    return false;
                }
                i += 1;
            }
            true
        },
        _ => false,
    }
}

/// What a toolchain asks of the platforms: whether the settings are met that it
/// asks of the target's configuration, whether the platform for execution has to
/// have what the target's has, and the values that each platform has to have.
pub struct ToolchainNode {
    pub target_settings_met: Vec<bool>,
    pub use_target_platform_constraints: Option<CoercedAttr>,
    pub target_compatible_with: Option<CoercedAttr>,
    pub exec_compatible_with: Option<CoercedAttr>,
}

/// The labels of an attribute, none where it is absent.
pub open spec fn optional_labels(attr: Option<CoercedAttr>) -> Seq<Text> {
    match attr {
        Some(attr) => target_labels(attr),
        None => seq![],
    }
}

/// The attribute is there and true.
pub open spec fn is_true(attr: Option<CoercedAttr>) -> bool {
    match attr {
        Some(attr) => bool_value(attr) == Some(true),
        None => false,
    }
}

/// Whether a toolchain goes with a target's platform and a platform for
/// execution.
pub open spec fn toolchain_fits(
    known: KnownTargets,
    node: ToolchainNode,
    target: Option<Constraints>,
    exec: Option<Constraints>,
) -> Result<bool, TargetStopModel> {
    let met = node.target_settings_met@;
    if !(met.len() == 0 || (target is Some && !met.contains(false))) {
        Ok(false)
    } else if is_true(node.use_target_platform_constraints) {
        Ok(exec is Some && target is Some && includes_constraints(exec->0, target->0))
    } else {
        match platform_has_values(known, target, optional_labels(node.target_compatible_with)) {
            Err(stop) => Err(stop),
            Ok(false) => Ok(false),
            Ok(true) => platform_has_values(
                known,
                exec,
                optional_labels(node.exec_compatible_with),
            ),
        }
    }
}

fn optional_labels_of(attr: &Option<CoercedAttr>) -> (r: Vec<String>)
    ensures
        r.deep_view() == optional_labels(*attr),
{
    match attr {
        Some(attr) => attr_target_labels(attr),
        None => {
            let none: Vec<String> = Vec::new();
            assert(none.deep_view() =~= seq![]);
            none
        },
    }
}

/// Whether a toolchain goes with a target's platform and a platform for
/// execution.
pub fn toolchain_constraints_match(
    known: &KeyMap<String, KnownTarget>,
    node: &ToolchainNode,
    target_platform: &Option<KeyMap<String, String>>,
    exec_platform: &Option<KeyMap<String, String>>,
) -> (r: Result<bool, TargetStop>)
    ensures
        toolchain_fits(
            known.deep_view(),
            *node,
            target_platform.deep_view(),
            exec_platform.deep_view(),
        ) == (match r {
            Ok(yes) => Ok::<bool, TargetStopModel>(yes),
            Err(stop) => Err(stop.deep_view()),
        }),
{
    if !configuration_settings_match(target_platform.is_some(), &node.target_settings_met) {
        return Ok(false);
    }
    let use_target_platform = match &node.use_target_platform_constraints {
        Some(attr) => match attr_bool(attr) {
            Some(value) => value,
            None => false,
        },
        None => false,
    };
    if use_target_platform {
        return Ok(platform_contains_platform_constraints(exec_platform, target_platform));
    }
    match platform_contains_constraint_values(
        known,
        target_platform,
        &optional_labels_of(&node.target_compatible_with),
    ) {
        Err(stop) => {
            return Err(stop);
        },
        Ok(false) => {
            return Ok(false);
        },
        Ok(true) => {},
    }
    platform_contains_constraint_values(
        known,
        exec_platform,
        &optional_labels_of(&node.exec_compatible_with),
    )
}

/// The toolchains that are registered, in the order in which they are tried:
/// those of the configuration, the last first, then those of the modules, each
/// once.
pub fn registered_toolchain_patterns(configured: &Vec<String>, modules: &Vec<String>) -> (r: Vec<
    String,
>)
    ensures
        r.deep_view() == dedup(configured.deep_view().reverse() + modules.deep_view()),
{
    let ghost model = configured.deep_view();
    let mut all: Vec<String> = Vec::new();
    let mut i: usize = configured.len();
    while i > 0
        invariant
            model == configured.deep_view(),
            0 <= i <= configured@.len(),
            all.deep_view() =~= model.reverse().take(configured@.len() - i),
        decreases i,
    {
        let ghost before = all.deep_view();
        i -= 1;
        assert(model[i as int] == configured@[i as int]@);
        all.push(configured[i].clone());
        assert(all.deep_view() =~= before.push(model[i as int]));
    }
    assert(all.deep_view() =~= model.reverse());
    let mut more = modules.duplicate();
    let ghost m = more.deep_view();
    all.append(&mut more);
    assert(all.deep_view() =~= model.reverse() + m);
    dedup_preserve_order(&mut all);
    all
}

/// A target that a pattern of registered toolchains names: the type of its rule,
/// and the attribute with the type of toolchain.
#[derive(Debug, PartialEq, Eq)]
pub struct RegisteredTarget {
    pub rule_type: String,
    pub toolchain_type: Option<CoercedAttr>,
}

/// The type of toolchain that a target names, where it is a toolchain.
pub open spec fn named_type(target: RegisteredTarget) -> Option<Text> {
    if !is_kind(target.rule_type@, "toolchain"@) {
        None
    } else {
        match target.toolchain_type {
            Some(attr) => target_label(attr),
            None => None,
        }
    }
}

/// The toolchains among the targets from `i` on, behind those before: each by its
/// type, with no alias and no marks in front, and by its place among the targets.
pub open spec fn toolchains_among(
    targets: Seq<RegisteredTarget>,
    known: KnownTargets,
    i: int,
    done: Seq<(Text, int)>,
) -> Result<Seq<(Text, int)>, TargetStopModel>
    decreases targets.len() - i,
{
    if i < 0 || i >= targets.len() {
        Ok(done)
    } else {
        match named_type(targets[i]) {
            None => toolchains_among(targets, known, i + 1, done),
            Some(label) => match alias_target(known, label, 16) {
                Err(stop) => Err(stop),
                Ok(actual) => toolchains_among(
                    targets,
                    known,
                    i + 1,
                    done.push((trim_start_char(actual, '@'), i)),
                ),
            },
        }
    }
}

/// The toolchains by their types and places, by model.
pub open spec fn registered_view(toolchains: Seq<(String, usize)>) -> Seq<(Text, int)> {
    toolchains.map_values(|t: (String, usize)| (t.0@, t.1 as int))
}

/// The toolchains among the targets that the registered patterns name, in order.
pub fn compute_registered_bazel_toolchain_nodes(
    targets: &Vec<RegisteredTarget>,
    known: &KeyMap<String, KnownTarget>,
) -> (r: Result<Vec<(String, usize)>, TargetStop>)
    ensures
        toolchains_among(targets@, known.deep_view(), 0, seq![]) == (match r {
            Ok(found) => Ok::<Seq<(Text, int)>, TargetStopModel>(registered_view(found@)),
            Err(stop) => Err(stop.deep_view()),
        }),
{
    let ghost k = known.deep_view();
    let ghost whole = toolchains_among(targets@, k, 0, seq![]);
    let mut out: Vec<(String, usize)> = Vec::new();
    assert(registered_view(out@) =~= seq![]);
    let mut i: usize = 0;
    while i < targets.len()
        invariant
            k == known.deep_view(),
            0 <= i <= targets@.len(),
            whole == toolchains_among(targets@, k, 0, seq![]),
            whole == toolchains_among(targets@, k, i as int, registered_view(out@)),
        decreases targets.len() - i,
    {
        let ghost before = registered_view(out@);
        if bazel_rule_kind_is(targets[i].rule_type.as_str(), "toolchain") {
            let label = match &targets[i].toolchain_type {
                Some(attr) => attr_target_label(attr),
                None => None,
            };
            if let Some(label) = label {
                match resolve_bazel_alias(known, label.as_str()) {
                    Err(stop) => {
                        return Err(stop);
                    },
                    Ok(actual) => {
                        let key = normalize_bazel_toolchain_key(actual.as_str());
                        let ghost g = key@;
                        out.push((key, i));
                        assert(registered_view(out@) =~= before.push((g, i as int)));
                    },
                }
            }
        }
        i += 1;
    }
    Ok(out)
}

/// A pattern of registered toolchains: a target of a package, or anything else.
#[derive(Debug, PartialEq, Eq)]
pub enum RegisteredPattern {
    Target { package: String, name: String },
    Package(String),
    Recursive(String),
}

/// The pattern that counts: the target `all` stands for its whole package.
pub fn registered_toolchain_pattern(pattern: RegisteredPattern) -> (r: RegisteredPattern)
    ensures
        match pattern {
            RegisteredPattern::Target { package, name } => if name@ == "all"@ {
                r == RegisteredPattern::Package(package)
            } else {
                r == pattern
            },
            _ => r == pattern,
        },
{
    match pattern {
        RegisteredPattern::Target { package, name } => if same(name.as_str(), "all") {
            RegisteredPattern::Package(package)
        } else {
            RegisteredPattern::Target { package, name }
        },
        other => other,
    }
}

/// A registered toolchain as a candidate for a type: the type that it is of,
/// whether it goes with the platforms, and what implements it.
pub struct ToolchainCandidate {
    pub toolchain_type: String,
    pub fits: Result<bool, InputError>,
    pub implementation: Option<Result<Option<String>, InputError>>,
}

/// The implementation of the first candidate from `i` on that is of the type,
/// goes with the platforms, and has one.
pub open spec fn chosen_toolchain(
    candidates: Seq<ToolchainCandidate>,
    toolchain_type: Text,
    i: int,
) -> Result<Option<Text>, Text>
    decreases candidates.len() - i,
{
    if i < 0 || i >= candidates.len() {
        Ok(None)
    } else if !keys_match(toolchain_type, candidates[i].toolchain_type@) {
        chosen_toolchain(candidates, toolchain_type, i + 1)
    } else {
        match candidates[i].fits {
            Err(e) => Err(e.deep_view()),
            Ok(false) => chosen_toolchain(candidates, toolchain_type, i + 1),
            Ok(true) => match candidates[i].implementation {
                None => chosen_toolchain(candidates, toolchain_type, i + 1),
                Some(Err(e)) => Err(e.deep_view()),
                Some(Ok(label)) => Ok(label.deep_view()),
            },
        }
    }
}

/// The implementation of the first candidate that serves.
pub fn compute_bazel_single_toolchain_resolution(
    candidates: &Vec<ToolchainCandidate>,
    toolchain_type: &str,
) -> (r: Result<Option<String>, InputError>)
    ensures
        result_view(r) == chosen_toolchain(candidates@, toolchain_type@, 0),
{
    let ghost whole = chosen_toolchain(candidates@, toolchain_type@, 0);
    let mut i: usize = 0;
    while i < candidates.len()
        invariant
            0 <= i <= candidates@.len(),
            whole == chosen_toolchain(candidates@, toolchain_type@, 0),
            whole == chosen_toolchain(candidates@, toolchain_type@, i as int),
        decreases candidates.len() - i,
    {
        let candidate = &candidates[i];
        if bazel_toolchain_keys_match(toolchain_type, candidate.toolchain_type.as_str()) {
            match &candidate.fits {
                Err(e) => {
                    return Err(e.duplicate());
                },
                Ok(false) => {},
                Ok(true) => {
                    match &candidate.implementation {
                        None => {},
                        Some(Err(e)) => {
                            return Err(e.duplicate());
                        },
                        Some(Ok(label)) => {
                            return Ok(label.duplicate());
                        },
                    }
                },
            }
        }
        i += 1;
    }
    Ok(None)
}

/// The toolchain types that a target declares, from `i` on, behind those before:
/// each once, with its resolved name, and mandatory where one declaration says
/// so.
pub open spec fn declared_from(
    declared: Seq<(Text, bool)>,
    resolved: Seq<Text>,
    i: int,
    done: Seq<(Text, (Text, bool))>,
) -> Seq<(Text, (Text, bool))>
    decreases declared.len() - i,
{
    if i < 0 || i >= declared.len() {
        done
    } else {
        let key = trim_start_char(declared[i].0, '@');
        let value = match lookup(done, key) {
            Some((name, mandatory)) => (name, mandatory || declared[i].1),
            None => (resolved[i], declared[i].1),
        };
        declared_from(declared, resolved, i + 1, placed(done, key, value))
    }
}

/// The toolchain types that a target declares.
pub struct DeclaredToolchains {
    types: SmallMap<String, (String, bool)>,
}

impl DeclaredToolchains {
    /// The types, in order, each with its resolved name and whether it is
    /// mandatory.
    pub closed spec fn list(&self) -> Seq<(Text, (Text, bool))> {
        toolchain_items(self.types)
    }

    /// The types that a target and its aspects declare, with the names that they
    /// were resolved to.
    pub fn collect(declared: &Vec<(String, bool)>, resolved: &Vec<String>) -> (r: Self)
        requires
            resolved@.len() == declared@.len(),
        ensures
            r.list() == declared_from(declared.deep_view(), resolved.deep_view(), 0, seq![]),
    {
        let ghost d = declared.deep_view();
        let ghost n = resolved.deep_view();
        let mut types = new_toolchain_map();
        let mut i: usize = 0;
        while i < declared.len()
            invariant
                d == declared.deep_view(),
                n == resolved.deep_view(),
                resolved@.len() == declared@.len(),
                0 <= i <= declared@.len(),
                declared_from(d, n, 0, seq![]) == declared_from(
                    d,
                    n,
                    i as int,
                    toolchain_items(types),
                ),
            decreases declared.len() - i,
        {
            assert(d[i as int] == (declared@[i as int].0@, declared@[i as int].1));
            assert(n[i as int] == resolved@[i as int]@);
            let key = normalize_bazel_toolchain_key(declared[i].0.as_str());
            let value = match toolchain_get(&types, key.as_str()) {
                Some((name, mandatory)) => (name.clone(), *mandatory || declared[i].1),
                None => (resolved[i].clone(), declared[i].1),
            };
            toolchain_insert(&mut types, key, value);
            i += 1;
        }
        DeclaredToolchains { types }
    }

    /// The types, in order, each with its resolved name and whether it is
    /// mandatory.
    pub fn entries(&self) -> (r: Vec<(&String, &(String, bool))>)
        ensures
            r.deep_view() == self.list(),
    {
        toolchain_entries(&self.types)
    }
}

/// The toolchains that were found for the declared types, from `i` on, behind
/// those before; an error where a mandatory one was not.
pub open spec fn resolved_toolchains(
    declared: Seq<(Text, (Text, bool))>,
    found: Seq<Option<Text>>,
    target: Text,
    i: int,
    done: Seq<(Text, Text)>,
) -> Result<Seq<(Text, Text)>, Text>
    decreases declared.len() - i,
{
    if i < 0 || i >= declared.len() {
        Ok(done)
    } else {
        match found[i] {
            Some(label) => resolved_toolchains(
                declared,
                found,
                target,
                i + 1,
                done.push((declared[i].0, label)),
            ),
            None => if declared[i].1.1 {
                Err(
                    "mandatory toolchain type `"@ + declared[i].0 + "` was not resolved for `"@
                        + target + "`"@,
                )
            } else {
                resolved_toolchains(declared, found, target, i + 1, done)
            },
        }
    }
}

/// The toolchains that were found for the declared types, in order: none where the
/// target's configuration is not bound.
pub fn resolve_bazel_toolchain_deps(
    is_bound: bool,
    declared: &DeclaredToolchains,
    found: &Vec<Option<String>>,
    target_label: &str,
) -> (r: Result<Vec<(String, String)>, InputError>)
    requires
        is_bound ==> found@.len() == declared.list().len(),
    ensures
        result_view(r) == (if is_bound {
            resolved_toolchains(declared.list(), found.deep_view(), target_label@, 0, seq![])
        } else {
            Ok(seq![])
        }),
{
    if !is_bound {
        let none: Vec<(String, String)> = Vec::new();
        assert(none.deep_view() =~= seq![]);
        return Ok(none);
    }
    let entries = declared.entries();
    let ghost d = entries.deep_view();
    let ghost f = found.deep_view();
    let ghost whole = resolved_toolchains(d, f, target_label@, 0, seq![]);
    let mut out: Vec<(String, String)> = Vec::new();
    assert(out.deep_view() =~= seq![]);
    let mut i: usize = 0;
    while i < entries.len()
        invariant
            is_bound,
            d == entries.deep_view(),
            d == declared.list(),
            f == found.deep_view(),
            found@.len() == entries@.len(),
            0 <= i <= entries@.len(),
            whole == resolved_toolchains(d, f, target_label@, 0, seq![]),
            whole == resolved_toolchains(d, f, target_label@, i as int, out.deep_view()),
        decreases entries.len() - i,
    {
        let ghost before = out.deep_view();
        assert(d[i as int] == (entries@[i as int].0@, entries@[i as int].1.deep_view()));
        assert(f[i as int] == found@[i as int].deep_view());
        match &found[i] {
            Some(label) => {
                out.push((entries[i].0.clone(), label.clone()));
                assert(out.deep_view() =~= before.push((d[i as int].0, label@)));
            },
            None => {
                if entries[i].1.1 {
                    let mut message = concat3(
                        "mandatory toolchain type `",
                        entries[i].0.as_str(),
                        "` was not resolved for `",
                    );
                    message.append(target_label);
                    message.append("`");
                    return Err(InputError { message });
                }
            },
        }
        i += 1;
    }
    Ok(out)
}

/// The values of a platform's constraints hold the label, or what it is an alias of.
pub open spec fn has_value_of(known: KnownTargets, platform: Constraints, label: Text) -> bool {
    exists|i: int|
        0 <= i < platform.len() && ((#[trigger] platform[i]).1 == label || alias_target(
            known,
            label,
            16,
        ) == Ok::<Text, TargetStopModel>(platform[i].1))
}

proof fn lemma_has_values(known: KnownTargets, platform: Constraints, values: Seq<Text>, i: int)
    requires
        0 <= i <= values.len(),
    ensures
        has_values(known, platform, values, i) == Ok::<bool, TargetStopModel>(true) <==> (forall|
            j: int,
        |
            i <= j < values.len() ==> has_value_of(known, platform, #[trigger] values[j])),
        has_values(known, platform, values, i) is Err ==> exists|j: int|
            i <= j < values.len() && alias_target(known, #[trigger] values[j], 16) is Err,
    decreases values.len() - i,
{
    if i < values.len() {
        lemma_has_values(known, platform, values, i + 1);
        let label = values[i];
        if has_constraint_value(platform, label) {
            let j = choose|j: int| 0 <= j < platform.len() && (#[trigger] platform[j]).1 == label;
            assert(has_value_of(known, platform, label));
        } else {
            match alias_target(known, label, 16) {
                Err(_) => {
                    assert(!has_value_of(known, platform, label));
                    assert(alias_target(known, values[i], 16) is Err);
                },
                Ok(resolved) => {
                    if has_constraint_value(platform, resolved) {
                        let j = choose|j: int|
                            0 <= j < platform.len() && (#[trigger] platform[j]).1 == resolved;
                        assert(platform[j].1 == resolved);
                        assert(has_value_of(known, platform, label));
                    } else {
                        assert(!has_value_of(known, platform, label));
                    }
                },
            }
        }
    }
}

proof fn lemma_lookup_among(items: Constraints, k: Text)
    ensures
        match lookup(items, k) {
            Some(v) => exists|j: int| 0 <= j < items.len() && #[trigger] items[j] == (k, v),
            None => forall|j: int| 0 <= j < items.len() ==> (#[trigger] items[j]).0 != k,
        },
    decreases items.len(),
{
    if items.len() > 0 {
        let rest = items.skip(1);
        lemma_lookup_among(rest, k);
        if items[0].0 == k {
            assert(items[0] == (k, items[0].1));
        } else {
            match lookup(rest, k) {
                Some(v) => {
                    let j = choose|j: int| 0 <= j < rest.len() && #[trigger] rest[j] == (k, v);
                    assert(items[j + 1] == (k, v));
                },
                None => {
                    assert forall|j: int| 0 <= j < items.len() implies (#[trigger] items[j]).0
                        != k by {
                        if j > 0 {
                            assert(rest[j - 1] == items[j]);
                        }
                    }
                },
            }
        }
    }
}

/// A toolchain that goes with the platforms has all that it asks for: its settings are
/// met under a bound configuration, each label that it asks of the target's platform is,
/// by itself or as an alias, a value of a constraint there, and each label that it asks
/// of the platform for execution is one there; a platform that is not bound has none.
pub proof fn law_toolchain_has_what_it_asks(
    known: KnownTargets,
    node: ToolchainNode,
    target: Option<Constraints>,
    exec: Option<Constraints>,
)
    requires
        toolchain_fits(known, node, target, exec) == Ok::<bool, TargetStopModel>(true),
    ensures
        forall|i: int|
            0 <= i < node.target_settings_met@.len() ==> target is Some
                && #[trigger] node.target_settings_met@[i],
        !is_true(node.use_target_platform_constraints) ==> {
            &&& forall|i: int|
                0 <= i < optional_labels(node.target_compatible_with).len() ==> target is Some
                    && has_value_of(
                    known,
                    target->0,
                    #[trigger] optional_labels(node.target_compatible_with)[i],
                )
            &&& forall|i: int|
                0 <= i < optional_labels(node.exec_compatible_with).len() ==> exec is Some
                    && has_value_of(
                    known,
                    exec->0,
                    #[trigger] optional_labels(node.exec_compatible_with)[i],
                )
        },
        is_true(node.use_target_platform_constraints) ==> {
            &&& target is Some && exec is Some
            &&& forall|i: int|
                0 <= i < target->0.len() ==> exec->0.contains(#[trigger] target->0[i])
        },
{
    let met = node.target_settings_met@;
    assert forall|i: int| 0 <= i < met.len() implies target is Some && #[trigger] met[i] by {
        if !met[i] {
            assert(met.contains(false));
        }
    }
    if is_true(node.use_target_platform_constraints) {
        assert forall|i: int| 0 <= i < target->0.len() implies exec->0.contains(
            #[trigger] target->0[i],
        ) by {
            lemma_lookup_among(exec->0, target->0[i].0);
        }
    } else {
        if target is Some {
            lemma_has_values(known, target->0, optional_labels(node.target_compatible_with), 0);
        }
        if exec is Some {
            lemma_has_values(known, exec->0, optional_labels(node.exec_compatible_with), 0);
        }
    }
}

/// A toolchain goes with platforms that have all that it asks for.
pub proof fn law_toolchain_fits_where_all_is_met(
    known: KnownTargets,
    node: ToolchainNode,
    target: Constraints,
    exec: Constraints,
)
    requires
        forall|i: int|
            0 <= i < node.target_settings_met@.len() ==> #[trigger] node.target_settings_met@[i],
        !is_true(node.use_target_platform_constraints),
        forall|i: int|
            0 <= i < optional_labels(node.target_compatible_with).len() ==> has_value_of(
                known,
                target,
                #[trigger] optional_labels(node.target_compatible_with)[i],
            ),
        forall|i: int|
            0 <= i < optional_labels(node.exec_compatible_with).len() ==> has_value_of(
                known,
                exec,
                #[trigger] optional_labels(node.exec_compatible_with)[i],
            ),
    ensures
        toolchain_fits(known, node, Some(target), Some(exec)) == Ok::<bool, TargetStopModel>(true),
{
    lemma_has_values(known, target, optional_labels(node.target_compatible_with), 0);
    lemma_has_values(known, exec, optional_labels(node.exec_compatible_with), 0);
}

/// What a list of labels asks of a platform are the targets of these labels, in order;
/// an absent list asks for nothing, and only a true switch is one.
pub proof fn law_toolchain_attributes(list: Vec<CoercedAttr>, i: int, b: bool)
    ensures
        optional_labels(None) == Seq::<Text>::empty(),
        (forall|j: int| 0 <= j < list@.len() ==> #[trigger] list@[j] is Dep) ==> {
            &&& optional_labels(Some(CoercedAttr::List(list))).len() == list@.len()
            &&& forall|j: int|
                0 <= j < list@.len() ==> #[trigger] optional_labels(
                    Some(CoercedAttr::List(list)),
                )[j] == list@[j]->Dep_0.target@
        },
        is_true(Some(CoercedAttr::Bool(b))) == b,
        !is_true(None),
{
    if forall|j: int| 0 <= j < list@.len() ==> #[trigger] list@[j] is Dep {
        lemma_labels_among(list@);
    }
}

proof fn lemma_labels_among(list: Seq<CoercedAttr>)
    requires
        forall|j: int| 0 <= j < list.len() ==> #[trigger] list[j] is Dep,
    ensures
        labels_among(list).len() == list.len(),
        forall|j: int|
            0 <= j < list.len() ==> #[trigger] labels_among(list)[j] == list[j]->Dep_0.target@,
    decreases list.len(),
{
    if list.len() > 0 {
        let before = list.drop_last();
        assert forall|j: int| 0 <= j < before.len() implies #[trigger] before[j] is Dep by {
            assert(list[j] is Dep);
        }
        lemma_labels_among(before);
        assert(list[list.len() - 1] is Dep);
        assert forall|j: int| 0 <= j < list.len() implies #[trigger] labels_among(list)[j]
            == list[j]->Dep_0.target@ by {
            if j < before.len() {
                assert(labels_among(before)[j] == before[j]->Dep_0.target@);
            }
        }
    }
}

/// A label whose rule is no alias stands for itself; one whose rule is an alias of
/// another stands for what that stands for, one step nearer to the end.
pub proof fn law_alias_stands_for_actual(
    known: KnownTargets,
    label: Text,
    rule_type: Text,
    actual: Option<Text>,
    steps: nat,
)
    requires
        lookup(known, label) == Some(KnownTargetModel::Target(rule_type, actual)),
        steps > 0,
    ensures
        rule_type != "alias"@ && !("alias"@.is_suffix_of(rule_type)) ==> alias_target(
            known,
            label,
            steps,
        ) == Ok::<Text, TargetStopModel>(label),
        rule_type == "alias"@ && actual is Some && actual->0 != label && lookup(known, actual->0)
            is Some && steps > 1 ==> alias_target(known, label, steps) == alias_target(
            known,
            actual->0,
            (steps - 1) as nat,
        ),
        actual is None ==> alias_target(known, label, steps) == Ok::<Text, TargetStopModel>(label),
{
    if rule_type != "alias"@ && !("alias"@.is_suffix_of(rule_type)) {
        if let Some((_, name)) = rsplit_once(rule_type, ":"@) {
            lemma_rfind_from(rule_type, ":"@, rule_type.len() - ":"@.len());
            if name == "alias"@ {
                let k = rfind_from(rule_type, ":"@, rule_type.len() - ":"@.len())->0 + ":"@.len();
                assert(rule_type.subrange(rule_type.len() - "alias"@.len(), rule_type.len() as int)
                    =~= rule_type.skip(k));
                assert("alias"@.is_suffix_of(rule_type));
            }
        }
    }
}

/// The toolchain that is chosen for a type implements the first candidate of that type
/// that goes with the platforms and names an implementation; each candidate of the type
/// before it does not go with them, or names none. Where none is chosen for want of such
/// a candidate, every candidate of the type fails in this way.
pub proof fn law_chosen_toolchain(
    candidates: Seq<ToolchainCandidate>,
    toolchain_type: Text,
    i: int,
)
    requires
        0 <= i,
    ensures
        match chosen_toolchain(candidates, toolchain_type, i) {
            Ok(Some(label)) => exists|k: int|
                {
                    &&& i <= k < candidates.len()
                    &&& keys_match(toolchain_type, (#[trigger] candidates[k]).toolchain_type@)
                    &&& candidates[k].fits == Ok::<bool, InputError>(true)
                    &&& candidates[k].implementation matches Some(Ok(Some(found))) && found@
                        == label
                    &&& forall|j: int|
                        i <= j < k && keys_match(
                            toolchain_type,
                            (#[trigger] candidates[j]).toolchain_type@,
                        ) ==> candidates[j].fits == Ok::<bool, InputError>(false)
                            || candidates[j].implementation is None
                },
            Ok(None) => forall|j: int|
                i <= j < candidates.len() && keys_match(
                    toolchain_type,
                    (#[trigger] candidates[j]).toolchain_type@,
                ) && candidates[j].fits == Ok::<bool, InputError>(true) ==> !(
                candidates[j].implementation matches Some(Ok(Some(_)))) || exists|k: int|
                    i <= k < j && (#[trigger] candidates[k]).implementation matches Some(Ok(None)),
            Err(_) => true,
        },
    decreases candidates.len() - i,
{
    if i < candidates.len() {
        let c = candidates[i];
        let passes_by = !keys_match(toolchain_type, c.toolchain_type@) || c.fits == Ok::<
            bool,
            InputError,
        >(false) || (c.fits == Ok::<bool, InputError>(true) && c.implementation is None);
        if passes_by {
            law_chosen_toolchain(candidates, toolchain_type, i + 1);
            match chosen_toolchain(candidates, toolchain_type, i + 1) {
                Ok(Some(label)) => {
                    let k = choose|k: int|
                        {
                            &&& i + 1 <= k < candidates.len()
                            &&& keys_match(
                                toolchain_type,
                                (#[trigger] candidates[k]).toolchain_type@,
                            )
                            &&& candidates[k].fits == Ok::<bool, InputError>(true)
                            &&& candidates[k].implementation matches Some(Ok(Some(found)))
                                && found@ == label
                            &&& forall|j: int|
                                i + 1 <= j < k && keys_match(
                                    toolchain_type,
                                    (#[trigger] candidates[j]).toolchain_type@,
                                ) ==> candidates[j].fits == Ok::<bool, InputError>(false)
                                    || candidates[j].implementation is None
                        };
                    assert(candidates[k].implementation is Some);
                },
                Ok(None) => {
                    assert forall|j: int|
                        i <= j < candidates.len() && keys_match(
                            toolchain_type,
                            (#[trigger] candidates[j]).toolchain_type@,
                        ) && candidates[j].fits == Ok::<bool, InputError>(true) implies !(
                    candidates[j].implementation matches Some(Ok(Some(_)))) || exists|k: int|
                        i <= k < j && (#[trigger] candidates[k]).implementation matches Some(
                            Ok(None),
                        ) by {
                        if j > i && candidates[j].implementation matches Some(Ok(Some(_))) {
                            let k = choose|k: int|
                                i + 1 <= k < j && (
                                #[trigger] candidates[k]).implementation matches Some(Ok(None));
                            assert(candidates[k].implementation matches Some(Ok(None)));
                        }
                    }
                },
                _ => {},
            }
        } else if c.fits == Ok::<bool, InputError>(true) {
            match c.implementation {
                Some(Ok(Some(found))) => {
                    assert(candidates[i].fits == Ok::<bool, InputError>(true));
                    assert(chosen_toolchain(candidates, toolchain_type, i) == Ok::<
                        Option<Text>,
                        Text,
                    >(Some(found@)));
                },
                Some(Ok(None)) => {
                    assert(candidates[i].implementation matches Some(Ok(None)));
                    assert forall|j: int|
                        i <= j < candidates.len() && keys_match(
                            toolchain_type,
                            (#[trigger] candidates[j]).toolchain_type@,
                        ) && candidates[j].fits == Ok::<bool, InputError>(true) implies !(
                    candidates[j].implementation matches Some(Ok(Some(_)))) || exists|k: int|
                        i <= k < j && (#[trigger] candidates[k]).implementation matches Some(
                            Ok(None),
                        ) by {
                        if j > i {
                            assert(i <= i < j && candidates[i].implementation matches Some(
                                Ok(None),
                            ));
                        }
                    }
                },
                _ => {},
            }
        }
    }
}

proof fn lemma_declared_from(
    declared: Seq<(Text, bool)>,
    resolved: Seq<Text>,
    i: int,
    done: Seq<(Text, (Text, bool))>,
    key: Text,
)
    requires
        0 <= i <= declared.len(),
    ensures
        ({
            let found = lookup(declared_from(declared, resolved, i, done), key);
            let before = lookup(done, key);
            &&& found is Some <==> before is Some || exists|j: int|
                i <= j < declared.len() && trim_start_char((#[trigger] declared[j]).0, '@') == key
            &&& found is Some && (found->0).1 <==> (before is Some && (before->0).1) || exists|j: int|
                i <= j < declared.len() && trim_start_char((#[trigger] declared[j]).0, '@') == key
                    && declared[j].1
        }),
    decreases declared.len() - i,
{
    if i < declared.len() {
        let own = trim_start_char(declared[i].0, '@');
        let value = match lookup(done, own) {
            Some((name, mandatory)) => (name, mandatory || declared[i].1),
            None => (resolved[i], declared[i].1),
        };
        let next = placed(done, own, value);
        law_lookup_placed(done, own, value, key);
        lemma_declared_from(declared, resolved, i + 1, next, key);
    }
}

/// A toolchain type counts as declared where some declaration names it, with or without
/// marks in front, and as mandatory exactly where one of these declarations says so.
pub proof fn law_declared_mandatory(
    declared: Seq<(Text, bool)>,
    resolved: Seq<Text>,
    key: Text,
)
    requires
        resolved.len() == declared.len(),
    ensures
        ({
            let found = lookup(declared_from(declared, resolved, 0, seq![]), key);
            &&& found is Some <==> exists|j: int|
                0 <= j < declared.len() && trim_start_char((#[trigger] declared[j]).0, '@') == key
            &&& found is Some && (found->0).1 <==> exists|j: int|
                0 <= j < declared.len() && trim_start_char((#[trigger] declared[j]).0, '@') == key
                    && declared[j].1
        }),
{
    lemma_declared_from(declared, resolved, 0, seq![], key);
}

proof fn lemma_resolved_toolchains(
    declared: Seq<(Text, (Text, bool))>,
    found: Seq<Option<Text>>,
    target: Text,
    i: int,
    done: Seq<(Text, Text)>,
)
    requires
        0 <= i <= declared.len(),
        found.len() == declared.len(),
    ensures
        match resolved_toolchains(declared, found, target, i, done) {
            Ok(out) => {
                &&& done.is_prefix_of(out)
                &&& forall|j: int|
                    i <= j < declared.len() ==> (#[trigger] found[j] is Some || !(declared[j].1).1)
                &&& forall|j: int|
                    i <= j < declared.len() && #[trigger] found[j] is Some ==> out.contains(
                        (declared[j].0, found[j]->0),
                    )
                &&& forall|m: int|
                    done.len() <= m < out.len() ==> exists|j: int|
                        i <= j < declared.len() && #[trigger] found[j] == Some(
                            (#[trigger] out[m]).1,
                        ) && declared[j].0 == out[m].0
            },
            Err(_) => exists|j: int|
                i <= j < declared.len() && #[trigger] found[j] is None && (declared[j].1).1,
        },
    decreases declared.len() - i,
{
    if i < declared.len() {
        match found[i] {
            Some(label) => {
                let next = done.push((declared[i].0, label));
                lemma_resolved_toolchains(declared, found, target, i + 1, next);
                if let Ok(out) = resolved_toolchains(declared, found, target, i + 1, next) {
                    assert(next[done.len() as int] == (declared[i].0, label));
                    assert(out[done.len() as int] == next[done.len() as int]);
                    assert(done.is_prefix_of(out)) by {
                        assert(done =~= next.subrange(0, done.len() as int));
                        assert(out.subrange(0, done.len() as int) =~= out.subrange(
                            0,
                            next.len() as int,
                        ).subrange(0, done.len() as int));
                    }
                    assert forall|m: int| done.len() <= m < out.len() implies exists|j: int|
                        i <= j < declared.len() && #[trigger] found[j] == Some(
                            (#[trigger] out[m]).1,
                        ) && declared[j].0 == out[m].0 by {
                        if m == done.len() {
                            assert(found[i] == Some(out[m].1));
                        }
                    }
                }
            },
            None => {
                if !(declared[i].1).1 {
                    lemma_resolved_toolchains(declared, found, target, i + 1, done);
                }
            },
        }
    }
}

/// A target gets the toolchain that was found for each type that it declares, and no
/// others. It is an error exactly where one that is mandatory was not found.
pub proof fn law_toolchains_resolved(
    declared: Seq<(Text, (Text, bool))>,
    found: Seq<Option<Text>>,
    target: Text,
)
    requires
        found.len() == declared.len(),
    ensures
        resolved_toolchains(declared, found, target, 0, seq![]) is Err <==> exists|j: int|
            0 <= j < declared.len() && #[trigger] found[j] is None && (declared[j].1).1,
        resolved_toolchains(declared, found, target, 0, seq![]) matches Ok(out) ==> {
            &&& forall|j: int|
                0 <= j < declared.len() && #[trigger] found[j] is Some ==> out.contains(
                    (declared[j].0, found[j]->0),
                )
            &&& forall|m: int|
                0 <= m < out.len() ==> exists|j: int|
                    0 <= j < declared.len() && #[trigger] found[j] == Some((#[trigger] out[m]).1)
                        && declared[j].0 == out[m].0
        },
{
    lemma_resolved_toolchains(declared, found, target, 0, seq![]);
}

/// The toolchains of the configuration are tried before those of the modules, and the one
/// that is configured last before all others.
pub proof fn law_last_configured_first(
    configured: Vec<String>,
    modules: Vec<String>,
    patterns: Vec<String>,
)
    requires
        call_ensures(registered_toolchain_patterns, (&configured, &modules), patterns),
    ensures
        configured@.len() > 0 ==> patterns@.len() > 0 && patterns@[0]@ == configured@.last()@,
        configured@.len() == 0 && modules@.len() > 0 ==> patterns@.len() > 0 && patterns@[0]@
            == modules@[0]@,
        forall|i: int|
            0 <= i < configured@.len() ==> patterns.deep_view().contains(
                (#[trigger] configured@[i])@,
            ),
        forall|i: int|
            0 <= i < modules@.len() ==> patterns.deep_view().contains((#[trigger] modules@[i])@),
{
    let a = configured.deep_view().reverse();
    let b = modules.deep_view();
    let all = a + b;
    law_dedup(all);
    lemma_first_stays(all);
    assert(patterns.deep_view().len() == patterns@.len());
    assert(configured.deep_view().len() == configured@.len());
    assert(modules.deep_view().len() == modules@.len());
    if configured@.len() > 0 {
        assert(all[0] == configured.deep_view()[configured@.len() - 1]);
        assert(patterns.deep_view()[0] == patterns@[0]@);
    } else if modules@.len() > 0 {
        assert(all[0] == b[0]);
        assert(patterns.deep_view()[0] == patterns@[0]@);
    }
    assert forall|i: int| 0 <= i < configured@.len() implies patterns.deep_view().contains(
        (#[trigger] configured@[i])@,
    ) by {
        assert(all[configured@.len() - 1 - i] == configured.deep_view()[i]);
        assert(all.contains(configured@[i]@));
    }
    assert forall|i: int| 0 <= i < modules@.len() implies patterns.deep_view().contains(
        (#[trigger] modules@[i])@,
    ) by {
        assert(all[configured@.len() + i] == b[i]);
        assert(all.contains(modules@[i]@));
    }
}

proof fn lemma_first_stays(items: Seq<Text>)
    ensures
        items.len() > 0 ==> dedup(items).len() > 0 && dedup(items)[0] == items[0],
    decreases items.len(),
{
    if items.len() > 1 {
        lemma_first_stays(items.drop_last());
    } else if items.len() == 1 {
        assert(items.drop_last() =~= seq![]);
        assert(dedup(items.drop_last()) =~= seq![]);
    }
}

/// Keys of toolchain types are the same where what follows the first two slashes is; what
/// stands before them does not count.
pub proof fn law_keys_by_target(a: Text, b: Text, x: Text, y: Text)
    requires
        !a.contains('/'),
        !b.contains('/'),
    ensures
        keys_match(a + "//"@ + x, b + "//"@ + y) <==> x == y,
{
    lemma_split_at_slashes(a, x);
    lemma_split_at_slashes(b, y);
    if a + "//"@ + x == b + "//"@ + y {
        assert(split_once(a + "//"@ + x, "//"@) == split_once(b + "//"@ + y, "//"@));
    }
}

proof fn lemma_split_at_slashes(a: Text, x: Text)
    requires
        !a.contains('/'),
    ensures
        split_once(a + "//"@ + x, "//"@) == Some((a, x)),
{
    reveal_strlit("//");
    let p = "//"@;
    let s = a + p + x;
    let n = a.len() as int;
    lemma_find_from(s, p, 0);
    assert(s.subrange(n, n + 2) =~= p);
    assert(occurs_at(s, p, n));
    assert forall|j: int| 0 <= j < n implies !#[trigger] occurs_at(s, p, j) by {
        if occurs_at(s, p, j) {
            assert(s.subrange(j, j + 2)[0] == a[j]);
            assert(a.contains(a[j]));
        }
    }
    assert(s.take(n) =~= a);
    assert(s.skip(n + 2) =~= x);
}

/// Settings are met where each of them is, under a bound configuration; where none is asked
/// for they are met anyway.
pub proof fn law_settings_match(bound: bool, met: Vec<bool>, all_met: bool)
    requires
        call_ensures(configuration_settings_match, (bound, &met), all_met),
    ensures
        met@.len() == 0 ==> all_met,
        met@.len() > 0 ==> (all_met <==> bound && forall|i: int|
            0 <= i < met@.len() ==> #[trigger] met@[i]),
{
    if !met@.contains(false) {
        assert forall|i: int| 0 <= i < met@.len() implies #[trigger] met@[i] by {
            if !met@[i] {
                assert(met@.contains(false));
            }
        }
    } else {
        let i = choose|i: int| 0 <= i < met@.len() && met@[i] == false;
        assert(!met@[i]);
    }
}

/// A platform has all the constraints of another where each setting of that has the same
/// value here; without either it has not.
pub proof fn law_platform_includes(
    platform: Option<KeyMap<String, String>>,
    wanted: Option<KeyMap<String, String>>,
    included: bool,
)
    requires
        call_ensures(platform_contains_platform_constraints, (&platform, &wanted), included),
    ensures
        platform is None || wanted is None ==> !included,
        platform is Some && wanted is Some ==> (included <==> forall|i: int|
            0 <= i < wanted->0.deep_view().len() ==> lookup(
                platform->0.deep_view(),
                (#[trigger] wanted->0.deep_view()[i]).0,
            ) == Some(wanted->0.deep_view()[i].1)),
{
}

/// The target `all` of a package stands for all its targets, and no other pattern changes.
pub proof fn law_pattern_of_package(
    package: String,
    name: String,
    pattern: RegisteredPattern,
)
    requires
        call_ensures(
            registered_toolchain_pattern,
            (RegisteredPattern::Target { package, name },),
            pattern,
        ),
    ensures
        name@ == "all"@ ==> pattern == RegisteredPattern::Package(package),
        name@ != "all"@ ==> pattern == (RegisteredPattern::Target { package, name }),
{
}

} // verus!
