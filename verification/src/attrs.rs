//! The attributes of targets, as far as their shape counts.

use vstd::prelude::*;
use vstd::string::*;
use crate::external_data::SameModel;
use crate::ordered::Duplicate;
use crate::text::{Text, same};

verus! {

/// A target, and the names that lead to some of its providers; none for all of
/// them.
#[derive(Debug, PartialEq, Eq)]
pub struct ProvidersLabel {
    pub target: String,
    pub providers: Vec<String>,
}

/// The model of [`ProvidersLabel`].
pub struct ProvidersLabelModel {
    pub target: Text,
    pub providers: Seq<Text>,
}

impl DeepView for ProvidersLabel {
    type V = ProvidersLabelModel;

    open spec fn deep_view(&self) -> ProvidersLabelModel {
        ProvidersLabelModel { target: self.target@, providers: self.providers.deep_view() }
    }
}

impl Duplicate for ProvidersLabel {
    fn duplicate(&self) -> (r: Self) {
        ProvidersLabel { target: self.target.clone(), providers: self.providers.duplicate() }
    }
}

impl SameModel for ProvidersLabel {
    fn same_model(&self, other: &Self) -> (r: bool) {
        self.target.same_model(&other.target) && self.providers.same_model(&other.providers)
    }
}

/// Names of providers as they stand behind a target.
pub open spec fn provider_text(names: Seq<Text>) -> Text
    decreases names.len(),
{
    if names.len() == 0 {
        seq![]
    } else {
        provider_text(names.drop_last()) + "["@ + names.last() + "]"@
    }
}

impl ProvidersLabelModel {
    /// The label as a text.
    pub open spec fn text(self) -> Text {
        self.target + provider_text(self.providers)
    }
}

/// All providers of a target.
pub open spec fn all_providers(target: Text) -> ProvidersLabelModel {
    ProvidersLabelModel { target, providers: seq![] }
}

impl ProvidersLabel {
    /// All providers of a target.
    pub fn default_for(target: &str) -> (r: Self)
        ensures
            r.deep_view() == all_providers(target@),
    {
        let providers: Vec<String> = Vec::new();
        assert(providers.deep_view() =~= seq![]);
        ProvidersLabel { target: target.to_owned(), providers }
    }

    /// The label as a text.
    pub fn display(&self) -> (r: String)
        ensures
            r@ == self.deep_view().text(),
    {
        let ghost names = self.providers.deep_view();
        let mut out = self.target.clone();
        let mut i: usize = 0;
        assert(out@ =~= self.target@ + provider_text(names.take(0)));
        while i < self.providers.len()
            invariant
                names == self.providers.deep_view(),
                0 <= i <= self.providers@.len(),
                out@ =~= self.target@ + provider_text(names.take(i as int)),
            decreases self.providers.len() - i,
        {
            proof {
                let t = names.take(i + 1);
                assert(t.drop_last() =~= names.take(i as int));
                assert(t.last() == self.providers@[i as int]@);
            }
            out.append("[");
            out.append(self.providers[i].as_str());
            out.append("]");
            i += 1;
        }
        assert(names.take(i as int) =~= names);
        out
    }
}

/// The value of an attribute as it was written.
#[derive(Debug, PartialEq, Eq)]
pub enum CoercedAttr {
    Bool(bool),
    Int(i64),
    String(String),
    EnumVariant(String),
    Nothing,
    Visibility,
    WithinView,
    Arg,
    Query,
    Metadata,
    TargetModifiers,
    SelectFail(String),
    SelectIncompatible(String),
    Label(ProvidersLabel),
    Dep(ProvidersLabel),
    ConfigurationDep(ProvidersLabel),
    SourceLabel(ProvidersLabel),
    ExplicitConfiguredDep(String),
    TransitionDep(String),
    SplitTransitionDep(String),
    ConfiguredDepForForwardNode(String),
    PluginDep(String),
    SourceFile(String),
    OneOf(Box<CoercedAttr>),
    Selector(Vec<CoercedAttr>),
    Concat(Vec<CoercedAttr>),
    List(Vec<CoercedAttr>),
    Tuple(Vec<CoercedAttr>),
    Dict(Vec<CoercedAttr>, Vec<CoercedAttr>),
}

/// A transition can see the attribute: nothing in it is a dependency or a
/// source. Where the transition is a Bazel one, dependencies that it sees as
/// labels are no obstacle.
pub open spec fn transition_attr(attr: CoercedAttr, bazel: bool) -> bool
    decreases attr, 0nat,
{
    match attr {
        CoercedAttr::TransitionDep(_) => false,
        CoercedAttr::SplitTransitionDep(_) => false,
        CoercedAttr::ConfiguredDepForForwardNode(_) => false,
        CoercedAttr::PluginDep(_) => false,
        CoercedAttr::SourceFile(_) => false,
        CoercedAttr::ExplicitConfiguredDep(_) => bazel,
        CoercedAttr::ConfigurationDep(_) => bazel,
        CoercedAttr::Dep(_) => bazel,
        CoercedAttr::SourceLabel(_) => bazel,
        CoercedAttr::OneOf(inner) => transition_attr(*inner, bazel),
        CoercedAttr::Selector(values) => transition_attrs(values, bazel, 0),
        CoercedAttr::Concat(values) => transition_attrs(values, bazel, 0),
        CoercedAttr::List(values) => transition_attrs(values, bazel, 0),
        CoercedAttr::Tuple(values) => transition_attrs(values, bazel, 0),
        CoercedAttr::Dict(keys, values) => transition_attrs(keys, bazel, 0) && transition_attrs(
            values,
            bazel,
            0,
        ),
        _ => true,
    }
}

/// A transition can see each of the attributes from `i` on.
pub open spec fn transition_attrs(attrs: Vec<CoercedAttr>, bazel: bool, i: int) -> bool
    decreases attrs, attrs@.len() - i,
{
    if i < 0 || i >= attrs@.len() {
        true
    } else {
        transition_attr(attrs[i], bazel) && transition_attrs(attrs, bazel, i + 1)
    }
}

fn all_transition_attrs(attrs: &Vec<CoercedAttr>, bazel: bool) -> (r: bool)
    ensures
        r == transition_attrs(*attrs, bazel, 0),
    decreases *attrs, 1nat,
{
    let mut i: usize = 0;
    while i < attrs.len()
        invariant
            0 <= i <= attrs@.len(),
            transition_attrs(*attrs, bazel, 0) == transition_attrs(*attrs, bazel, i as int),
        decreases attrs.len() - i,
    {
        if !is_transition_attr(&attrs[i], bazel) {
            return false;
        }
        i += 1;
    }
    true
}

fn is_transition_attr(attr: &CoercedAttr, bazel: bool) -> (r: bool)
    ensures
        r == transition_attr(*attr, bazel),
    decreases *attr, 0nat,
{
    match attr {
        CoercedAttr::TransitionDep(_) => false,
        CoercedAttr::SplitTransitionDep(_) => false,
        CoercedAttr::ConfiguredDepForForwardNode(_) => false,
        CoercedAttr::PluginDep(_) => false,
        CoercedAttr::SourceFile(_) => false,
        CoercedAttr::ExplicitConfiguredDep(_) => bazel,
        CoercedAttr::ConfigurationDep(_) => bazel,
        CoercedAttr::Dep(_) => bazel,
        CoercedAttr::SourceLabel(_) => bazel,
        CoercedAttr::OneOf(inner) => is_transition_attr(inner, bazel),
        CoercedAttr::Selector(values) => all_transition_attrs(values, bazel),
        CoercedAttr::Concat(values) => all_transition_attrs(values, bazel),
        CoercedAttr::List(values) => all_transition_attrs(values, bazel),
        CoercedAttr::Tuple(values) => all_transition_attrs(values, bazel),
        CoercedAttr::Dict(keys, values) => all_transition_attrs(keys, bazel)
            && all_transition_attrs(values, bazel),
        _ => true,
    }
}

/// Whether a transition can see the attribute.
pub fn coerced_attr_can_be_transition_attr(value: &CoercedAttr) -> (r: bool)
    ensures
        r == transition_attr(*value, false),
{
    is_transition_attr(value, false)
}

/// Whether a Bazel transition can see the attribute.
pub fn coerced_attr_can_be_bazel_transition_attr(value: &CoercedAttr) -> (r: bool)
    ensures
        r == transition_attr(*value, true),
{
    is_transition_attr(value, true)
}

/// A Bazel transition sees every attribute that any transition sees.
pub proof fn law_bazel_transition_attr(attr: CoercedAttr)
    ensures
        transition_attr(attr, false) ==> transition_attr(attr, true),
    decreases attr, 0nat,
{
    match attr {
        CoercedAttr::OneOf(inner) => {
            law_bazel_transition_attr(*inner);
        },
        CoercedAttr::Selector(values) => {
            lemma_bazel_transition_attrs(values, 0);
        },
        CoercedAttr::Concat(values) => {
            lemma_bazel_transition_attrs(values, 0);
        },
        CoercedAttr::List(values) => {
            lemma_bazel_transition_attrs(values, 0);
        },
        CoercedAttr::Tuple(values) => {
            lemma_bazel_transition_attrs(values, 0);
        },
        CoercedAttr::Dict(keys, values) => {
            lemma_bazel_transition_attrs(keys, 0);
            lemma_bazel_transition_attrs(values, 0);
        },
        _ => {},
    }
}

proof fn lemma_bazel_transition_attrs(attrs: Vec<CoercedAttr>, i: int)
    ensures
        transition_attrs(attrs, false, i) ==> transition_attrs(attrs, true, i),
    decreases attrs, attrs@.len() - i,
{
    if 0 <= i < attrs@.len() {
        law_bazel_transition_attr(attrs[i]);
        lemma_bazel_transition_attrs(attrs, i + 1);
    }
}

/// The target of the label that an attribute is.
pub open spec fn target_label(attr: CoercedAttr) -> Option<Text>
    decreases attr,
{
    match attr {
        CoercedAttr::Label(label) => Some(label.target@),
        CoercedAttr::Dep(label) => Some(label.target@),
        CoercedAttr::ConfigurationDep(label) => Some(label.target@),
        CoercedAttr::SourceLabel(label) => Some(label.target@),
        CoercedAttr::OneOf(inner) => target_label(*inner),
        _ => None,
    }
}

/// The target of the label that an attribute is.
pub fn attr_target_label(attr: &CoercedAttr) -> (r: Option<&String>)
    ensures
        r.deep_view() == target_label(*attr),
    decreases *attr,
{
    match attr {
        CoercedAttr::Label(label) => Some(&label.target),
        CoercedAttr::Dep(label) => Some(&label.target),
        CoercedAttr::ConfigurationDep(label) => Some(&label.target),
        CoercedAttr::SourceLabel(label) => Some(&label.target),
        CoercedAttr::OneOf(inner) => attr_target_label(inner),
        _ => None,
    }
}

/// The targets of the labels among attributes.
pub open spec fn labels_among(attrs: Seq<CoercedAttr>) -> Seq<Text>
    decreases attrs.len(),
{
    if attrs.len() == 0 {
        seq![]
    } else {
        match target_label(attrs.last()) {
            Some(label) => labels_among(attrs.drop_last()).push(label),
            None => labels_among(attrs.drop_last()),
        }
    }
}

/// The targets of the labels that an attribute is made of: those of a list, or the
/// one that it is.
pub open spec fn target_labels(attr: CoercedAttr) -> Seq<Text>
    decreases attr,
{
    match attr {
        CoercedAttr::List(list) => labels_among(list@),
        CoercedAttr::OneOf(inner) => target_labels(*inner),
        _ => match target_label(attr) {
            Some(label) => seq![label],
            None => seq![],
        },
    }
}

/// The targets of the labels that an attribute is made of.
pub fn attr_target_labels(attr: &CoercedAttr) -> (r: Vec<String>)
    ensures
        r.deep_view() == target_labels(*attr),
    decreases *attr,
{
    let mut out: Vec<String> = Vec::new();
    assert(out.deep_view() =~= seq![]);
    match attr {
        CoercedAttr::List(list) => {
            let mut i: usize = 0;
            while i < list.len()
                invariant
                    0 <= i <= list@.len(),
                    out.deep_view() == labels_among(list@.take(i as int)),
                decreases list.len() - i,
            {
                let ghost before = out.deep_view();
                proof {
                    let t = list@.take(i + 1);
                    assert(t.drop_last() =~= list@.take(i as int));
                    assert(t.last() == list@[i as int]);
                }
                match attr_target_label(&list[i]) {
                    Some(label) => {
                        out.push(label.clone());
                        assert(out.deep_view() =~= before.push(label@));
                    },
                    None => {},
                }
                i += 1;
            }
            assert(list@.take(i as int) =~= list@);
        },
        CoercedAttr::OneOf(inner) => {
            return attr_target_labels(inner);
        },
        _ => {
            match attr_target_label(attr) {
                Some(label) => {
                    out.push(label.clone());
                    assert(out.deep_view() =~= seq![label@]);
                },
                None => {},
            }
        },
    }
    out
}

/// The settings that an attribute names: its targets, each with all its providers.
pub fn attr_configuration_setting_keys(attr: &CoercedAttr) -> (r: Vec<ProvidersLabel>)
    ensures
        r.deep_view() == target_labels(*attr).map_values(|target: Text| all_providers(target)),
{
    let targets = attr_target_labels(attr);
    let ghost model = target_labels(*attr).map_values(|target: Text| all_providers(target));
    let mut keys: Vec<ProvidersLabel> = Vec::new();
    let mut i: usize = 0;
    assert(targets.deep_view().len() == targets@.len());
    assert(keys.deep_view() =~= model.take(0));
    while i < targets.len()
        invariant
            model == targets.deep_view().map_values(|target: Text| all_providers(target)),
            model.len() == targets@.len(),
            0 <= i <= targets@.len(),
            keys.deep_view() =~= model.take(i as int),
        decreases targets.len() - i,
    {
        let ghost before = keys.deep_view();
        assert(targets.deep_view()[i as int] == targets@[i as int]@);
        keys.push(ProvidersLabel::default_for(targets[i].as_str()));
        assert(keys.deep_view() =~= before.push(model[i as int]));
        i += 1;
    }
    assert(model.take(i as int) =~= model);
    keys
}

/// The truth value that an attribute is.
pub open spec fn bool_value(attr: CoercedAttr) -> Option<bool>
    decreases attr,
{
    match attr {
        CoercedAttr::Bool(value) => Some(value),
        CoercedAttr::OneOf(inner) => bool_value(*inner),
        _ => None,
    }
}

/// The truth value that an attribute is.
pub fn attr_bool(attr: &CoercedAttr) -> (r: Option<bool>)
    ensures
        r == bool_value(*attr),
    decreases *attr,
{
    match attr {
        CoercedAttr::Bool(value) => Some(*value),
        CoercedAttr::OneOf(inner) => attr_bool(inner),
        _ => None,
    }
}

/// The value of an attribute under a configuration.
#[derive(Debug, PartialEq, Eq)]
pub enum ConfiguredAttr {
    Label(String),
    List(Vec<ConfiguredAttr>),
    Tuple(Vec<ConfiguredAttr>),
    Dict(Vec<(ConfiguredAttr, ConfiguredAttr)>),
    OneOf(Box<ConfiguredAttr>),
    Other(String),
}

/// The labels anywhere in an attribute, in order.
pub open spec fn labels_in(attr: ConfiguredAttr) -> Seq<Text>
    decreases attr, 0nat,
{
    match attr {
        ConfiguredAttr::Label(label) => seq![label@],
        ConfiguredAttr::List(items) => labels_in_all(items, items@.len() as int),
        ConfiguredAttr::Tuple(items) => labels_in_all(items, items@.len() as int),
        ConfiguredAttr::Dict(items) => labels_in_pairs(items, items@.len() as int),
        ConfiguredAttr::OneOf(inner) => labels_in(*inner),
        ConfiguredAttr::Other(_) => seq![],
    }
}

/// The labels in the first `n` attributes.
pub open spec fn labels_in_all(items: Vec<ConfiguredAttr>, n: int) -> Seq<Text>
    decreases items, n,
{
    if n <= 0 || n > items@.len() {
        seq![]
    } else {
        labels_in_all(items, n - 1) + labels_in(items[n - 1])
    }
}

/// The labels in the first `n` pairs, in each first those of the key.
pub open spec fn labels_in_pairs(items: Vec<(ConfiguredAttr, ConfiguredAttr)>, n: int) -> Seq<Text>
    decreases items, n,
{
    if n <= 0 || n > items@.len() {
        seq![]
    } else {
        let pair = items[n - 1];
        labels_in_pairs(items, n - 1) + labels_in(pair.0) + labels_in(pair.1)
    }
}

fn push_labels(out: &mut Vec<String>, attr: &ConfiguredAttr)
    ensures
        final(out).deep_view() == old(out).deep_view() + labels_in(*attr),
    decreases *attr, 0nat,
{
    let ghost before = out.deep_view();
    match attr {
        ConfiguredAttr::Label(label) => {
            out.push(label.clone());
            assert(out.deep_view() =~= before + labels_in(*attr));
        },
        ConfiguredAttr::List(items) => {
            push_all_labels(out, items);
        },
        ConfiguredAttr::Tuple(items) => {
            push_all_labels(out, items);
        },
        ConfiguredAttr::Dict(items) => {
            push_pair_labels(out, items);
        },
        ConfiguredAttr::OneOf(inner) => {
            push_labels(out, inner);
        },
        ConfiguredAttr::Other(_) => {
            assert(before + seq![] =~= before);
        },
    }
}

fn push_all_labels(out: &mut Vec<String>, items: &Vec<ConfiguredAttr>)
    ensures
        final(out).deep_view() == old(out).deep_view() + labels_in_all(*items, items@.len() as int),
    decreases *items, 1nat,
{
    let ghost before = out.deep_view();
    let mut i: usize = 0;
    assert(before + seq![] =~= before);
    while i < items.len()
        invariant
            0 <= i <= items@.len(),
            out.deep_view() == before + labels_in_all(*items, i as int),
        decreases items.len() - i,
    {
        push_labels(out, &items[i]);
        assert(out.deep_view() =~= before + labels_in_all(*items, i + 1));
        i += 1;
    }
}

fn push_pair_labels(out: &mut Vec<String>, items: &Vec<(ConfiguredAttr, ConfiguredAttr)>)
    ensures
        final(out).deep_view() == old(out).deep_view() + labels_in_pairs(
            *items,
            items@.len() as int,
        ),
    decreases *items, 1nat,
{
    let ghost before = out.deep_view();
    let mut i: usize = 0;
    assert(before + seq![] =~= before);
    while i < items.len()
        invariant
            0 <= i <= items@.len(),
            out.deep_view() == before + labels_in_pairs(*items, i as int),
        decreases items.len() - i,
    {
        let pair = &items[i];
        assert(decreases_to!(*items => items[i as int]));
        push_labels(out, &pair.0);
        push_labels(out, &pair.1);
        assert(out.deep_view() =~= before + labels_in_pairs(*items, i + 1));
        i += 1;
    }
}

/// The labels anywhere in an attribute, in order.
pub fn configured_attr_labels(attr: &ConfiguredAttr) -> (r: Vec<String>)
    ensures
        r.deep_view() == labels_in(*attr),
{
    let mut out: Vec<String> = Vec::new();
    push_labels(&mut out, attr);
    assert(out.deep_view() =~= labels_in(*attr));
    out
}

/// The attribute is one that every rule takes variables from.
pub open spec fn gives_make_variables(name: Text) -> bool {
    name == "toolchains"@ || name == ":cc_toolchain"@ || name == "$toolchains"@ || name
        == "$cc_toolchain"@
}

/// Whether an attribute is one that every rule takes variables from.
pub fn is_bazel_default_make_variable_attribute(name: &str) -> (r: bool)
    ensures
        r == gives_make_variables(name@),
{
    same(name, "toolchains") || same(name, ":cc_toolchain") || same(name, "$toolchains") || same(
        name,
        "$cc_toolchain",
    )
}

} // verus!
