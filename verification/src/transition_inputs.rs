//! The attributes that transitions are computed from.

use starlark_map::ordered_map::OrderedMap;
use vstd::prelude::*;
use vstd::string::*;
use crate::attrs::{
    CoercedAttr, coerced_attr_can_be_bazel_transition_attr, coerced_attr_can_be_transition_attr,
    transition_attr,
};
use crate::dep_maps::{
    law_lookup_placed, law_placed_keys, new_text_map, placed, text_entries, text_get, text_insert,
    text_items,
};
use crate::module::InputError;
use crate::ordered::{Duplicate, lookup};
use crate::text::{Text, same};
use crate::visibility::{NodeError, NodeErrorModel, Outcome, ResultMaybeCompatible};

verus! {

/// The attributes that a transition asks for, or why they cannot be told.
#[derive(Debug, PartialEq, Eq)]
pub enum TransitionAttrs {
    Nothing,
    Listed(Vec<String>),
    All,
    BazelAll,
    Unknown(InputError),
}

/// A transition: the attributes that it asks for, and whether they have to stay
/// the same under the configuration that it leads to.
#[derive(Debug, PartialEq, Eq)]
pub struct TransitionInput {
    pub attrs: TransitionAttrs,
    pub requires_post_transition_attr_check: bool,
}

/// An attribute of a target: its name, its value as it was written, and its value
/// under the configuration before the transition, as a text, which it may not have
/// there.
#[derive(Debug, PartialEq, Eq)]
pub struct InputAttr {
    pub name: String,
    pub coerced: CoercedAttr,
    pub configured: ResultMaybeCompatible<String>,
}

/// The attributes resolved so far, in order; or, of the first attribute that cannot
/// be, why it has no value on the platform or the error.
pub type Resolved = Outcome<Seq<(Text, Text)>>;

/// What is resolved once an attribute is, unless it was before.
pub open spec fn with_input(done: Seq<(Text, Text)>, attr: InputAttr) -> Resolved {
    if lookup(done, attr.name@) is Some {
        Outcome::Compatible(done)
    } else {
        match attr.configured {
            ResultMaybeCompatible::Compatible(value) => Outcome::Compatible(
                placed(done, attr.name@, value@),
            ),
            ResultMaybeCompatible::Incompatible(reason) => Outcome::Incompatible(
                reason.deep_view(),
            ),
            ResultMaybeCompatible::Error(e) => Outcome::Error(e.deep_view()),
        }
    }
}

/// The first of the attributes from `i` on that has the name.
pub open spec fn attr_named(attrs: Seq<InputAttr>, name: Text, i: int) -> Option<InputAttr>
    decreases attrs.len() - i,
{
    if i < 0 || i >= attrs.len() {
        None
    } else if attrs[i].name@ == name {
        Some(attrs[i])
    } else {
        attr_named(attrs, name, i + 1)
    }
}

/// What is resolved once a listed attribute is, where the target has it and can read
/// it, unless it was resolved before.
pub open spec fn with_named(
    done: Seq<(Text, Text)>,
    name: Text,
    attrs: Seq<InputAttr>,
    unreadable: Seq<(Text, Text)>,
) -> Resolved {
    if lookup(done, name) is Some {
        Outcome::Compatible(done)
    } else {
        match lookup(unreadable, name) {
            Some(message) => Outcome::Error(NodeErrorModel::Other(message)),
            None => match attr_named(attrs, name, 0) {
                Some(attr) => with_input(done, attr),
                None => Outcome::Compatible(done),
            },
        }
    }
}

/// What is resolved once the listed attributes from `i` on are.
pub open spec fn with_listed(
    done: Seq<(Text, Text)>,
    listed: Seq<Text>,
    attrs: Seq<InputAttr>,
    unreadable: Seq<(Text, Text)>,
    i: int,
) -> Resolved
    decreases listed.len() - i,
{
    if i < 0 || i >= listed.len() {
        Outcome::Compatible(done)
    } else {
        match with_named(done, listed[i], attrs, unreadable) {
            Outcome::Compatible(next) => with_listed(next, listed, attrs, unreadable, i + 1),
            stopped => stopped,
        }
    }
}

/// What is resolved once the target's attributes from `i` on are that a
/// transition can see.
pub open spec fn with_visible(
    done: Seq<(Text, Text)>,
    attrs: Seq<InputAttr>,
    bazel: bool,
    i: int,
) -> Resolved
    decreases attrs.len() - i,
{
    if i < 0 || i >= attrs.len() {
        Outcome::Compatible(done)
    } else if !transition_attr(attrs[i].coerced, bazel) {
        with_visible(done, attrs, bazel, i + 1)
    } else {
        match with_input(done, attrs[i]) {
            Outcome::Compatible(next) => with_visible(next, attrs, bazel, i + 1),
            stopped => stopped,
        }
    }
}

/// What is resolved once a transition has what it asks for.
pub open spec fn with_transition(
    done: Seq<(Text, Text)>,
    asked: TransitionAttrs,
    attrs: Seq<InputAttr>,
    unreadable: Seq<(Text, Text)>,
) -> Resolved {
    match asked {
        TransitionAttrs::Nothing => Outcome::Compatible(done),
        TransitionAttrs::Listed(listed) => with_listed(
            done,
            listed.deep_view(),
            attrs,
            unreadable,
            0,
        ),
        TransitionAttrs::All => with_visible(done, attrs, false, 0),
        TransitionAttrs::BazelAll => with_visible(done, attrs, true, 0),
        TransitionAttrs::Unknown(e) => Outcome::Error(NodeErrorModel::Other(e.deep_view())),
    }
}

/// The attributes that the transitions from `i` on ask for, behind those before,
/// each once.
pub open spec fn inputs_resolved(
    transitions: Seq<TransitionInput>,
    attrs: Seq<InputAttr>,
    unreadable: Seq<(Text, Text)>,
    i: int,
    done: Seq<(Text, Text)>,
) -> Resolved
    decreases transitions.len() - i,
{
    if i < 0 || i >= transitions.len() {
        Outcome::Compatible(done)
    } else {
        match with_transition(done, transitions[i].attrs, attrs, unreadable) {
            Outcome::Compatible(next) => inputs_resolved(transitions, attrs, unreadable, i + 1, next),
            stopped => stopped,
        }
    }
}

/// One of the transitions asks for its attributes to stay the same.
pub open spec fn check_required(transitions: Seq<TransitionInput>) -> bool {
    exists|i: int|
        0 <= i < transitions.len() && (
        #[trigger] transitions[i]).requires_post_transition_attr_check
}

/// The attributes that transitions are computed from, and whether they have to
/// stay the same under the configuration that these lead to.
pub struct ResolvedTransitionInputAttrs {
    pub attrs: OrderedMap<String, String>,
    pub requires_post_transition_attr_check: bool,
}

impl ResolvedTransitionInputAttrs {
    /// The attributes with their values, in order.
    pub open spec fn attr_list(self) -> Seq<(Text, Text)> {
        text_items(self.attrs)
    }

    /// The attributes with their values, in order.
    pub fn entries(&self) -> (r: Vec<(&String, &String)>)
        ensures
            r.deep_view() == self.attr_list(),
    {
        text_entries(&self.attrs)
    }
}

fn add_input(done: &mut OrderedMap<String, String>, attr: &InputAttr) -> (r: ResultMaybeCompatible<()>)
    ensures
        match with_input(text_items(*old(done)), *attr) {
            Outcome::Incompatible(reason) => r matches ResultMaybeCompatible::Incompatible(found)
                && found.deep_view() == reason,
            Outcome::Error(e) => r matches ResultMaybeCompatible::Error(found) && found.deep_view()
                == e,
            Outcome::Compatible(next) => r is Compatible && text_items(*final(done)) == next,
        },
{
    if text_get(done, attr.name.as_str()).is_some() {
        return ResultMaybeCompatible::Compatible(());
    }
    match &attr.configured {
        ResultMaybeCompatible::Compatible(value) => {
            text_insert(done, attr.name.clone(), value.clone());
            ResultMaybeCompatible::Compatible(())
        },
        ResultMaybeCompatible::Incompatible(reason) => ResultMaybeCompatible::Incompatible(
            reason.duplicate(),
        ),
        ResultMaybeCompatible::Error(e) => ResultMaybeCompatible::Error(e.duplicate()),
    }
}

fn find_attr<'a>(attrs: &'a Vec<InputAttr>, name: &str) -> (r: Option<&'a InputAttr>)
    ensures
        match attr_named(attrs@, name@, 0) {
            Some(attr) => r matches Some(found) && *found == attr,
            None => r is None,
        },
{
    let mut i: usize = 0;
    while i < attrs.len()
        invariant
            0 <= i <= attrs@.len(),
            attr_named(attrs@, name@, 0) == attr_named(attrs@, name@, i as int),
        decreases attrs.len() - i,
    {
        if same(attrs[i].name.as_str(), name) {
            return Some(&attrs[i]);
        }
        i += 1;
    }
    None
}

fn find_error<'a>(errors: &'a Vec<(String, InputError)>, name: &str) -> (r: Option<&'a InputError>)
    ensures
        r.deep_view() == lookup(errors.deep_view(), name@),
{
    let ghost model = errors.deep_view();
    let mut i: usize = 0;
    assert(model.skip(0) =~= model);
    while i < errors.len()
        invariant
            model == errors.deep_view(),
            0 <= i <= errors@.len(),
            lookup(model, name@) == lookup(model.skip(i as int), name@),
        decreases errors.len() - i,
    {
        assert(model[i as int] == (errors@[i as int].0@, errors@[i as int].1.deep_view()));
        assert(model.skip(i as int)[0] == model[i as int]);
        assert(model.skip(i as int).skip(1) =~= model.skip(i + 1));
        if same(errors[i].0.as_str(), name) {
            return Some(&errors[i].1);
        }
        i += 1;
    }
    None
}

fn add_named(
    done: &mut OrderedMap<String, String>,
    name: &str,
    attrs: &Vec<InputAttr>,
    unreadable: &Vec<(String, InputError)>,
) -> (r: ResultMaybeCompatible<()>)
    ensures
        match with_named(text_items(*old(done)), name@, attrs@, unreadable.deep_view()) {
            Outcome::Incompatible(reason) => r matches ResultMaybeCompatible::Incompatible(found)
                && found.deep_view() == reason,
            Outcome::Error(e) => r matches ResultMaybeCompatible::Error(found) && found.deep_view()
                == e,
            Outcome::Compatible(next) => r is Compatible && text_items(*final(done)) == next,
        },
{
    if text_get(done, name).is_some() {
        return ResultMaybeCompatible::Compatible(());
    }
    match find_error(unreadable, name) {
        Some(e) => ResultMaybeCompatible::Error(NodeError::Other(e.duplicate())),
        None => match find_attr(attrs, name) {
            Some(attr) => add_input(done, attr),
            None => ResultMaybeCompatible::Compatible(()),
        },
    }
}

fn add_listed(
    done: &mut OrderedMap<String, String>,
    listed: &Vec<String>,
    attrs: &Vec<InputAttr>,
    unreadable: &Vec<(String, InputError)>,
) -> (r: ResultMaybeCompatible<()>)
    ensures
        match with_listed(
            text_items(*old(done)),
            listed.deep_view(),
            attrs@,
            unreadable.deep_view(),
            0,
        ) {
            Outcome::Incompatible(reason) => r matches ResultMaybeCompatible::Incompatible(found)
                && found.deep_view() == reason,
            Outcome::Error(e) => r matches ResultMaybeCompatible::Error(found) && found.deep_view()
                == e,
            Outcome::Compatible(next) => r is Compatible && text_items(*final(done)) == next,
        },
{
    let ghost model = listed.deep_view();
    let ghost u = unreadable.deep_view();
    let ghost whole = with_listed(text_items(*done), model, attrs@, u, 0);
    let mut i: usize = 0;
    while i < listed.len()
        invariant
            model == listed.deep_view(),
            0 <= i <= listed@.len(),
            u == unreadable.deep_view(),
            whole == with_listed(text_items(*old(done)), model, attrs@, u, 0),
            whole == with_listed(text_items(*done), model, attrs@, u, i as int),
        decreases listed.len() - i,
    {
        assert(model[i as int] == listed@[i as int]@);
        match add_named(done, listed[i].as_str(), attrs, unreadable) {
            ResultMaybeCompatible::Compatible(_) => {},
            ResultMaybeCompatible::Incompatible(reason) => {
                return ResultMaybeCompatible::Incompatible(reason);
            },
            ResultMaybeCompatible::Error(e) => {
                return ResultMaybeCompatible::Error(e);
            },
        }
        i += 1;
    }
    ResultMaybeCompatible::Compatible(())
}

fn add_visible(
    done: &mut OrderedMap<String, String>,
    attrs: &Vec<InputAttr>,
    bazel: bool,
) -> (r: ResultMaybeCompatible<()>)
    ensures
        match with_visible(text_items(*old(done)), attrs@, bazel, 0) {
            Outcome::Incompatible(reason) => r matches ResultMaybeCompatible::Incompatible(found)
                && found.deep_view() == reason,
            Outcome::Error(e) => r matches ResultMaybeCompatible::Error(found) && found.deep_view()
                == e,
            Outcome::Compatible(next) => r is Compatible && text_items(*final(done)) == next,
        },
{
    let ghost whole = with_visible(text_items(*done), attrs@, bazel, 0);
    let mut i: usize = 0;
    while i < attrs.len()
        invariant
            0 <= i <= attrs@.len(),
            whole == with_visible(text_items(*old(done)), attrs@, bazel, 0),
            whole == with_visible(text_items(*done), attrs@, bazel, i as int),
        decreases attrs.len() - i,
    {
        let visible = if bazel {
            coerced_attr_can_be_bazel_transition_attr(&attrs[i].coerced)
        } else {
            coerced_attr_can_be_transition_attr(&attrs[i].coerced)
        };
        if visible {
            match add_input(done, &attrs[i]) {
                ResultMaybeCompatible::Compatible(_) => {},
                ResultMaybeCompatible::Incompatible(reason) => {
                    return ResultMaybeCompatible::Incompatible(reason);
                },
                ResultMaybeCompatible::Error(e) => {
                    return ResultMaybeCompatible::Error(e);
                },
            }
        }
        i += 1;
    }
    ResultMaybeCompatible::Compatible(())
}

fn add_transition(
    done: &mut OrderedMap<String, String>,
    asked: &TransitionAttrs,
    attrs: &Vec<InputAttr>,
    unreadable: &Vec<(String, InputError)>,
) -> (r: ResultMaybeCompatible<()>)
    ensures
        match with_transition(text_items(*old(done)), *asked, attrs@, unreadable.deep_view()) {
            Outcome::Incompatible(reason) => r matches ResultMaybeCompatible::Incompatible(found)
                && found.deep_view() == reason,
            Outcome::Error(e) => r matches ResultMaybeCompatible::Error(found) && found.deep_view()
                == e,
            Outcome::Compatible(next) => r is Compatible && text_items(*final(done)) == next,
        },
{
    match asked {
        TransitionAttrs::Nothing => ResultMaybeCompatible::Compatible(()),
        TransitionAttrs::Listed(listed) => add_listed(done, listed, attrs, unreadable),
        TransitionAttrs::All => add_visible(done, attrs, false),
        TransitionAttrs::BazelAll => add_visible(done, attrs, true),
        TransitionAttrs::Unknown(e) => ResultMaybeCompatible::Error(
            NodeError::Other(e.duplicate()),
        ),
    }
}

/// Resolves the attributes that transitions ask for, in the order in which they
/// ask, each once. A name that the target cannot read, with its error, is `unreadable`.
/// The first attribute in turn that is not resolved decides: the target is
/// incompatible where that one has no value on the platform.
pub fn resolve_transition_input_attrs(
    transitions: &Vec<TransitionInput>,
    attrs: &Vec<InputAttr>,
    unreadable: &Vec<(String, InputError)>,
) -> (r: ResultMaybeCompatible<ResolvedTransitionInputAttrs>)
    ensures
        match inputs_resolved(transitions@, attrs@, unreadable.deep_view(), 0, seq![]) {
            Outcome::Incompatible(reason) => r matches ResultMaybeCompatible::Incompatible(found)
                && found.deep_view() == reason,
            Outcome::Error(e) => r matches ResultMaybeCompatible::Error(found) && found.deep_view()
                == e,
            Outcome::Compatible(found) => r matches ResultMaybeCompatible::Compatible(inputs)
                && inputs.attr_list() == found && inputs.requires_post_transition_attr_check == check_required(transitions@),
        },
{
    let mut done = new_text_map();
    let mut required = false;
    let mut i: usize = 0;
    while i < transitions.len()
        invariant
            0 <= i <= transitions@.len(),
            required == check_required(transitions@.take(i as int)),
            inputs_resolved(transitions@, attrs@, unreadable.deep_view(), 0, seq![])
                == inputs_resolved(
                transitions@,
                attrs@,
                unreadable.deep_view(),
                i as int,
                text_items(done),
            ),
        decreases transitions.len() - i,
    {
        proof {
            let before = transitions@.take(i as int);
            let after = transitions@.take(i + 1);
            assert(after == before.push(transitions@[i as int]));
            if check_required(before) {
                let j = choose|j: int|
                    0 <= j < before.len() && (
                    #[trigger] before[j]).requires_post_transition_attr_check;
                assert(after[j] == before[j]);
            }
            if transitions@[i as int].requires_post_transition_attr_check {
                assert(after[i as int].requires_post_transition_attr_check);
            }
            if check_required(after) && !transitions@[i as int].requires_post_transition_attr_check {
                let j = choose|j: int|
                    0 <= j < after.len() && (
                    #[trigger] after[j]).requires_post_transition_attr_check;
                assert(before[j] == after[j]);
            }
        }
        required = required || transitions[i].requires_post_transition_attr_check;
        match add_transition(&mut done, &transitions[i].attrs, attrs, unreadable) {
            ResultMaybeCompatible::Compatible(_) => {},
            ResultMaybeCompatible::Incompatible(reason) => {
                return ResultMaybeCompatible::Incompatible(reason);
            },
            ResultMaybeCompatible::Error(e) => {
                return ResultMaybeCompatible::Error(e);
            },
        }
        i += 1;
    }
    assert(transitions@.take(i as int) =~= transitions@);
    ResultMaybeCompatible::Compatible(
        ResolvedTransitionInputAttrs { attrs: done, requires_post_transition_attr_check: required },
    )
}

/// No key stands twice.
pub open spec fn keys_once(items: Seq<(Text, Text)>) -> bool {
    items.map_values(|e: (Text, Text)| e.0).no_duplicates()
}

proof fn lemma_lookup_key(items: Seq<(Text, Text)>, k: Text)
    requires
        lookup(items, k) is None,
    ensures
        !items.map_values(|e: (Text, Text)| e.0).contains(k),
    decreases items.len(),
{
    let keys = items.map_values(|e: (Text, Text)| e.0);
    if items.len() > 0 {
        lemma_lookup_key(items.skip(1), k);
        let rest = items.skip(1).map_values(|e: (Text, Text)| e.0);
        assert forall|i: int| 0 <= i < keys.len() implies keys[i] != k by {
            if i > 0 {
                assert(rest[i - 1] == keys[i]);
                assert(rest.contains(rest[i - 1]));
            }
        }
    }
}

proof fn lemma_input_once(done: Seq<(Text, Text)>, attr: InputAttr)
    requires
        keys_once(done),
    ensures
        with_input(done, attr) matches Outcome::Compatible(next) ==> keys_once(next),
{
    if lookup(done, attr.name@) is None {
        if let ResultMaybeCompatible::Compatible(value) = attr.configured {
            law_placed_keys(done, attr.name@, value@);
            lemma_lookup_key(done, attr.name@);
            let keys = done.map_values(|e: (Text, Text)| e.0);
            let out = keys.push(attr.name@);
            assert forall|a: int, b: int| 0 <= a < out.len() && 0 <= b < out.len() && a != b implies
                out[a] != out[b] by {
                if a < keys.len() {
                    assert(keys.contains(keys[a]));
                }
                if b < keys.len() {
                    assert(keys.contains(keys[b]));
                }
            }
        }
    }
}

proof fn lemma_listed_once(
    done: Seq<(Text, Text)>,
    listed: Seq<Text>,
    attrs: Seq<InputAttr>,
    unreadable: Seq<(Text, Text)>,
    i: int,
)
    requires
        keys_once(done),
    ensures
        with_listed(done, listed, attrs, unreadable, i) matches Outcome::Compatible(next) ==> keys_once(next),
    decreases listed.len() - i,
{
    if 0 <= i < listed.len() {
        if let Some(attr) = attr_named(attrs, listed[i], 0) {
            lemma_input_once(done, attr);
        }
        if let Outcome::Compatible(next) = with_named(done, listed[i], attrs, unreadable) {
            lemma_listed_once(next, listed, attrs, unreadable, i + 1);
        }
    }
}

proof fn lemma_visible_once(
    done: Seq<(Text, Text)>,
    attrs: Seq<InputAttr>,
    bazel: bool,
    i: int,
)
    requires
        keys_once(done),
    ensures
        with_visible(done, attrs, bazel, i) matches Outcome::Compatible(next) ==> keys_once(next),
    decreases attrs.len() - i,
{
    if 0 <= i < attrs.len() {
        if !transition_attr(attrs[i].coerced, bazel) {
            lemma_visible_once(done, attrs, bazel, i + 1);
        } else {
            lemma_input_once(done, attrs[i]);
            if let Outcome::Compatible(next) = with_input(done, attrs[i]) {
                lemma_visible_once(next, attrs, bazel, i + 1);
            }
        }
    }
}

/// No attribute is resolved twice, whichever transitions ask for it.
pub proof fn law_transition_inputs_once(
    transitions: Seq<TransitionInput>,
    attrs: Seq<InputAttr>,
    unreadable: Seq<(Text, Text)>,
    i: int,
    done: Seq<(Text, Text)>,
)
    requires
        keys_once(done),
    ensures
        inputs_resolved(transitions, attrs, unreadable, i, done) matches Outcome::Compatible(found) ==> keys_once(found),
    decreases transitions.len() - i,
{
    if 0 <= i < transitions.len() {
        match transitions[i].attrs {
            TransitionAttrs::Nothing | TransitionAttrs::Unknown(_) => {},
            TransitionAttrs::Listed(listed) => {
                lemma_listed_once(done, listed.deep_view(), attrs, unreadable, 0);
            },
            TransitionAttrs::All => {
                lemma_visible_once(done, attrs, false, 0);
            },
            TransitionAttrs::BazelAll => {
                lemma_visible_once(done, attrs, true, 0);
            },
        }
        if let Outcome::Compatible(next) = with_transition(done, transitions[i].attrs, attrs, unreadable) {
            law_transition_inputs_once(transitions, attrs, unreadable, i + 1, next);
        }
    }
}

/// The attributes have to stay the same where one transition asks for that, whatever the
/// others do.
pub proof fn law_check_required(transitions: Seq<TransitionInput>, next: TransitionInput)
    ensures
        !check_required(seq![]),
        check_required(transitions.push(next)) <==> check_required(transitions)
            || next.requires_post_transition_attr_check,
{
    let all = transitions.push(next);
    assert(all[transitions.len() as int] == next);
    if check_required(transitions) {
        let i = choose|i: int|
            0 <= i < transitions.len() && (
            #[trigger] transitions[i]).requires_post_transition_attr_check;
        assert(all[i].requires_post_transition_attr_check);
    }
    if check_required(all) {
        let i = choose|i: int|
            0 <= i < all.len() && (#[trigger] all[i]).requires_post_transition_attr_check;
        if i < transitions.len() {
            assert(transitions[i].requires_post_transition_attr_check);
        }
    }
}

/// A transition that asks for all attributes gets those that it can see and no others, and
/// keeps what was there.
pub proof fn law_visible_attributes(
    done: Seq<(Text, Text)>,
    attrs: Seq<InputAttr>,
    bazel: bool,
    i: int,
    name: Text,
)
    requires
        0 <= i <= attrs.len(),
    ensures
        with_visible(done, attrs, bazel, i) matches Outcome::Compatible(found) ==> {
            &&& lookup(found, name) is Some <==> lookup(done, name) is Some || exists|j: int|
                i <= j < attrs.len() && (#[trigger] attrs[j]).name@ == name && transition_attr(
                    attrs[j].coerced,
                    bazel,
                )
            &&& lookup(done, name) is Some ==> lookup(found, name) == lookup(done, name)
        },
    decreases attrs.len() - i,
{
    if i < attrs.len() {
        if !transition_attr(attrs[i].coerced, bazel) {
            law_visible_attributes(done, attrs, bazel, i + 1, name);
        } else if let Outcome::Compatible(next) = with_input(done, attrs[i]) {
            law_visible_attributes(next, attrs, bazel, i + 1, name);
            if let ResultMaybeCompatible::Compatible(value) = attrs[i].configured {
                law_lookup_placed(done, attrs[i].name@, value@, name);
            }
        }
    }
}

/// A transition that lists attributes gets those of them that the target has, each with
/// its value under the configuration before, and keeps what was there.
pub proof fn law_listed_attributes(
    done: Seq<(Text, Text)>,
    listed: Seq<Text>,
    attrs: Seq<InputAttr>,
    unreadable: Seq<(Text, Text)>,
    i: int,
    name: Text,
)
    requires
        0 <= i <= listed.len(),
    ensures
        with_listed(done, listed, attrs, unreadable, i) matches Outcome::Compatible(found) ==> {
            &&& lookup(found, name) is Some <==> lookup(done, name) is Some || (exists|j: int|
                i <= j < listed.len() && #[trigger] listed[j] == name) && exists|a: int|
                0 <= a < attrs.len() && (#[trigger] attrs[a]).name@ == name
            &&& lookup(done, name) is Some ==> lookup(found, name) == lookup(done, name)
        },
    decreases listed.len() - i,
{
    if i < listed.len() {
        lemma_attr_named(attrs, listed[i], 0);
        lemma_attr_named(attrs, name, 0);
        if let Outcome::Compatible(next) = with_named(done, listed[i], attrs, unreadable) {
            law_listed_attributes(next, listed, attrs, unreadable, i + 1, name);
            if let Some(attr) = attr_named(attrs, listed[i], 0) {
                if let ResultMaybeCompatible::Compatible(value) = attr.configured {
                    law_lookup_placed(done, attr.name@, value@, name);
                }
            }
        }
    }
}

proof fn lemma_attr_named(attrs: Seq<InputAttr>, name: Text, i: int)
    requires
        0 <= i <= attrs.len(),
    ensures
        match attr_named(attrs, name, i) {
            Some(attr) => attr.name@ == name && exists|a: int|
                i <= a < attrs.len() && #[trigger] attrs[a] == attr,
            None => forall|a: int| i <= a < attrs.len() ==> (#[trigger] attrs[a]).name@ != name,
        },
    decreases attrs.len() - i,
{
    if i < attrs.len() && attrs[i].name@ != name {
        lemma_attr_named(attrs, name, i + 1);
    }
}

} // verus!
