//! Whether one of some package groups, or one that they take in, admits a target.

use vstd::prelude::*;
use vstd::string::*;
use crate::module::InputError;
use crate::ordered::{
    Duplicate, KeyMap, KeySet, law_set_put_contains, lemma_missing, lookup, missing, set_put,
};
use crate::text::{Text, concat3};

verus! {

/// A pattern of the targets that see a dependency: one target, those of a package, or
/// those below a directory.
#[derive(Debug, PartialEq, Eq)]
pub enum VisibilityPattern {
    Target { package: String, name: String },
    Package(String),
    Recursive(String),
}

/// The labels of the single targets among the patterns, in order.
pub open spec fn single_targets(patterns: Seq<VisibilityPattern>) -> Seq<Text>
    decreases patterns.len(),
{
    if patterns.len() == 0 {
        seq![]
    } else {
        let before = single_targets(patterns.drop_last());
        match patterns.last() {
            VisibilityPattern::Target { package, name } => before.push(package@ + ":"@ + name@),
            _ => before,
        }
    }
}

/// The targets that can be package groups among those that see a dependency: the
/// single targets of its patterns, of which there are none where everything sees it.
pub fn bazel_package_group_visibility_labels(patterns: &Option<Vec<VisibilityPattern>>) -> (r: Vec<
    String,
>)
    ensures
        r.deep_view() == (match *patterns {
            Some(list) => single_targets(list@),
            None => seq![],
        }),
{
    let mut labels: Vec<String> = Vec::new();
    assert(labels.deep_view() =~= seq![]);
    match patterns {
        None => {},
        Some(list) => {
            let mut i: usize = 0;
            assert(list@.take(0) =~= seq![]);
            while i < list.len()
                invariant
                    0 <= i <= list@.len(),
                    labels.deep_view() == single_targets(list@.take(i as int)),
                decreases list.len() - i,
            {
                let ghost before = labels.deep_view();
                proof {
                    let t = list@.take(i + 1);
                    assert(t.drop_last() =~= list@.take(i as int));
                    assert(t.last() == list@[i as int]);
                }
                match &list[i] {
                    VisibilityPattern::Target { package, name } => {
                        let label = concat3(package.as_str(), ":", name.as_str());
                        let ghost g = label@;
                        labels.push(label);
                        assert(labels.deep_view() =~= before.push(g));
                    },
                    _ => {},
                }
                i += 1;
            }
            assert(list@.take(i as int) =~= list@);
        },
    }
    labels
}

/// What is known of a package group: whether it admits the target that is asked
/// about, and the groups that it takes in; or why it could not be looked up.
#[derive(Debug, PartialEq, Eq)]
pub enum KnownGroup {
    Group { admits: bool, includes: Vec<String> },
    Failed(InputError),
}

/// The model of [`KnownGroup`].
pub enum Group {
    Group(bool, Seq<Text>),
    Failed(Text),
}

impl DeepView for KnownGroup {
    type V = Group;

    open spec fn deep_view(&self) -> Group {
        match self {
            KnownGroup::Group { admits, includes } => Group::Group(*admits, includes.deep_view()),
            KnownGroup::Failed(e) => Group::Failed(e.deep_view()),
        }
    }
}

/// The groups that are known, by their labels.
pub type KnownGroups = Seq<(Text, Group)>;

/// Whether the groups admit the target, or a group that has to be looked up
/// first, or an error.
#[derive(Debug, PartialEq, Eq)]
pub enum GroupsAnswer {
    Admitted(bool),
    NeedsGroup(String),
    Failed(InputError),
}

/// The model of [`GroupsAnswer`].
pub enum Answer {
    Admitted(bool),
    NeedsGroup(Text),
    Failed(Text),
}

impl DeepView for GroupsAnswer {
    type V = Answer;

    open spec fn deep_view(&self) -> Answer {
        match self {
            GroupsAnswer::Admitted(yes) => Answer::Admitted(*yes),
            GroupsAnswer::NeedsGroup(label) => Answer::NeedsGroup(label@),
            GroupsAnswer::Failed(e) => Answer::Failed(e.deep_view()),
        }
    }
}

/// The labels of the known groups.
pub open spec fn group_labels(known: KnownGroups) -> Seq<Text> {
    Seq::new(known.len(), |i: int| known[i].0)
}

/// What the groups on the stack come to, the last first, after those seen.
pub open spec fn groups_walk(known: KnownGroups, seen: Seq<Text>, stack: Seq<Text>) -> Answer
    decreases missing(group_labels(known), seen), stack.len(),
    via groups_walk_decreases
{
    if stack.len() == 0 {
        Answer::Admitted(false)
    } else {
        let label = stack.last();
        let rest = stack.drop_last();
        if seen.contains(label) {
            groups_walk(known, seen, rest)
        } else {
            match lookup(known, label) {
                None => Answer::NeedsGroup(label),
                Some(Group::Failed(e)) => Answer::Failed(
                    "looking up package_group `"@ + label + "`: "@ + e,
                ),
                Some(Group::Group(admits, includes)) => if admits {
                    Answer::Admitted(true)
                } else {
                    groups_walk(known, set_put::<String>(seen, label), rest + includes)
                },
            }
        }
    }
}

proof fn lemma_group_labels(known: KnownGroups, label: Text)
    requires
        lookup(known, label) is Some,
    ensures
        group_labels(known).contains(label),
    decreases known.len(),
{
    if known[0].0 == label {
        assert(group_labels(known)[0] == label);
    } else {
        lemma_group_labels(known.skip(1), label);
        let rest = group_labels(known.skip(1));
        let i = choose|i: int| 0 <= i < rest.len() && rest[i] == label;
        assert(group_labels(known)[i + 1] == label);
    }
}

proof fn lemma_group_seen(known: KnownGroups, seen: Seq<Text>, label: Text)
    requires
        lookup(known, label) is Some,
        !seen.contains(label),
    ensures
        missing(group_labels(known), set_put::<String>(seen, label)) < missing(
            group_labels(known),
            seen,
        ),
        forall|x: Text|
            #![trigger seen.contains(x)]
            set_put::<String>(seen, label).contains(x) == (x == label || seen.contains(x)),
{
    let next = set_put::<String>(seen, label);
    lemma_group_labels(known, label);
    assert forall|x: Text|
        #![trigger seen.contains(x)]
        next.contains(x) == (x == label || seen.contains(x)) by {
        law_set_put_contains::<String>(seen, label, x);
    }
    law_set_put_contains::<String>(seen, label, label);
    lemma_missing(group_labels(known), seen, next);
    assert(group_labels(known).contains(label));
}

#[via_fn]
proof fn groups_walk_decreases(known: KnownGroups, seen: Seq<Text>, stack: Seq<Text>) {
    if stack.len() > 0 {
        let label = stack.last();
        if !seen.contains(label) && lookup(known, label) is Some {
            lemma_group_seen(known, seen, label);
        }
    }
}

/// Whether one of the groups, or one that they take in, admits the target.
pub fn bazel_package_groups_allow(
    known: &KeyMap<String, KnownGroup>,
    group_labels_to_check: &Vec<String>,
) -> (r: GroupsAnswer)
    ensures
        r.deep_view() == groups_walk(
            known.deep_view(),
            seq![],
            group_labels_to_check.deep_view(),
        ),
{
    let ghost k = known.deep_view();
    let ghost whole = groups_walk(k, seq![], group_labels_to_check.deep_view());
    let mut seen: KeySet<String> = KeySet::new();
    assert(seen.deep_view() =~= seq![]);
    let mut stack = group_labels_to_check.duplicate();
    while stack.len() > 0
        invariant
            k == known.deep_view(),
            whole == groups_walk(k, seq![], group_labels_to_check.deep_view()),
            whole == groups_walk(k, seen.deep_view(), stack.deep_view()),
        decreases missing(group_labels(k), seen.deep_view()), stack.deep_view().len(),
    {
        let ghost before = stack.deep_view();
        let ghost was = seen.deep_view();
        assert(before.len() == stack@.len());
        let label = stack.pop().unwrap();
        assert(label@ == before.last());
        assert(stack.deep_view() =~= before.drop_last());
        if !seen.contains(&label) {
            match known.get(&label) {
                None => {
                    return GroupsAnswer::NeedsGroup(label);
                },
                Some(KnownGroup::Failed(e)) => {
                    let mut message = concat3(
                        "looking up package_group `",
                        label.as_str(),
                        "`: ",
                    );
                    message.append(e.message.as_str());
                    return GroupsAnswer::Failed(InputError { message });
                },
                Some(KnownGroup::Group { admits, includes }) => {
                    if *admits {
                        return GroupsAnswer::Admitted(true);
                    }
                    proof {
                        lemma_group_seen(k, was, label@);
                    }
                    let mut more = includes.duplicate();
                    let ghost a = stack.deep_view();
                    let ghost b = more.deep_view();
                    stack.append(&mut more);
                    assert(stack.deep_view() =~= a + b);
                    seen.insert(label);
                },
            }
        }
    }
    assert(stack.deep_view().len() == stack@.len());
    GroupsAnswer::Admitted(false)
}

/// The groups that a group takes in.
pub open spec fn includes_of(known: KnownGroups, label: Text) -> Seq<Text> {
    match lookup(known, label) {
        Some(Group::Group(admits, includes)) => includes,
        _ => seq![],
    }
}

/// The group admits the target.
pub open spec fn group_admits(known: KnownGroups, label: Text) -> bool {
    match lookup(known, label) {
        Some(Group::Group(admits, includes)) => admits,
        _ => false,
    }
}

/// Each group on the path takes in the next.
pub open spec fn is_path(known: KnownGroups, path: Seq<Text>) -> bool {
    &&& path.len() > 0
    &&& forall|i: int|
        0 <= i < path.len() - 1 ==> includes_of(known, path[i]).contains(#[trigger] path[i + 1])
}

/// A path leads from one of the groups to one that admits the target.
pub open spec fn admitting_path(known: KnownGroups, from: Seq<Text>, path: Seq<Text>) -> bool {
    &&& is_path(known, path)
    &&& from.contains(path[0])
    &&& group_admits(known, path.last())
}

/// The target is admitted exactly where one of the groups, or one that they take
/// in, however far down, admits it.
pub proof fn law_groups_admit(known: KnownGroups, from: Seq<Text>)
    requires
        groups_walk(known, seq![], from) is Admitted,
    ensures
        groups_walk(known, seq![], from) == Answer::Admitted(
            exists|path: Seq<Text>| admitting_path(known, from, path),
        ),
{
    if groups_walk(known, seq![], from) == Answer::Admitted(true) {
        let path = lemma_admitted(known, seq![], from);
        assert(admitting_path(known, from, path));
    } else {
        assert forall|path: Seq<Text>| !admitting_path(known, from, path) by {
            if is_path(known, path) && from.contains(path[0]) {
                lemma_refused(known, seq![], from, path);
            }
        }
    }
}

proof fn lemma_admitted(known: KnownGroups, seen: Seq<Text>, stack: Seq<Text>) -> (path: Seq<Text>)
    requires
        groups_walk(known, seen, stack) == Answer::Admitted(true),
    ensures
        admitting_path(known, stack, path),
    decreases missing(group_labels(known), seen), stack.len(),
{
    let label = stack.last();
    let rest = stack.drop_last();
    assert(stack[stack.len() - 1] == label);
    assert forall|x: Text| #[trigger] rest.contains(x) implies stack.contains(x) by {
        let i = choose|i: int| 0 <= i < rest.len() && rest[i] == x;
        assert(stack[i] == x);
    }
    if seen.contains(label) {
        lemma_admitted(known, seen, rest)
    } else if group_admits(known, label) {
        seq![label]
    } else {
        let includes = includes_of(known, label);
        lemma_group_seen(known, seen, label);
        let path = lemma_admitted(known, set_put::<String>(seen, label), rest + includes);
        if rest.contains(path[0]) {
            path
        } else {
            let all = rest + includes;
            let i = choose|i: int| 0 <= i < all.len() && all[i] == path[0];
            if i < rest.len() {
                assert(rest[i] == path[0]);
            }
            assert(includes[i - rest.len()] == path[0]);
            let longer = seq![label] + path;
            assert forall|j: int| 0 <= j < longer.len() - 1 implies includes_of(
                known,
                longer[j],
            ).contains(#[trigger] longer[j + 1]) by {
                if j > 0 {
                    assert(longer[j] == path[j - 1]);
                    assert(longer[j + 1] == path[j - 1 + 1]);
                } else {
                    assert(longer[1] == path[0]);
                }
            }
            assert(longer.last() == path.last());
            longer
        }
    }
}

/// What was seen does not admit the target, and takes in only what was seen or
/// is to come.
spec fn settled(known: KnownGroups, seen: Seq<Text>, stack: Seq<Text>) -> bool {
    forall|x: Text| #[trigger]
        seen.contains(x) ==> !group_admits(known, x) && forall|y: Text| #[trigger]
            includes_of(known, x).contains(y) ==> seen.contains(y) || stack.contains(y)
}

proof fn lemma_refused(known: KnownGroups, seen: Seq<Text>, stack: Seq<Text>, path: Seq<Text>)
    requires
        groups_walk(known, seen, stack) == Answer::Admitted(false),
        settled(known, seen, stack),
        is_path(known, path),
        seen.contains(path[0]) || stack.contains(path[0]),
    ensures
        !group_admits(known, path.last()),
    decreases missing(group_labels(known), seen), stack.len(),
{
    if stack.len() == 0 {
        lemma_stays(known, seen, path, path.len() - 1);
    } else {
        let label = stack.last();
        let rest = stack.drop_last();
        assert forall|x: Text| #[trigger] stack.contains(x) implies x == label || rest.contains(
            x,
        ) by {
            let i = choose|i: int| 0 <= i < stack.len() && stack[i] == x;
            if i < rest.len() {
                assert(rest[i] == x);
            }
        }
        if seen.contains(label) {
            lemma_refused(known, seen, rest, path);
        } else {
            let includes = includes_of(known, label);
            let all = rest + includes;
            let next = set_put::<String>(seen, label);
            lemma_group_seen(known, seen, label);
            assert forall|x: Text| #[trigger] rest.contains(x) implies all.contains(x) by {
                let i = choose|i: int| 0 <= i < rest.len() && rest[i] == x;
                assert(all[i] == x);
            }
            assert forall|x: Text| #[trigger] includes.contains(x) implies all.contains(x) by {
                let i = choose|i: int| 0 <= i < includes.len() && includes[i] == x;
                assert(all[rest.len() + i] == x);
            }
            assert(settled(known, next, all)) by {
                assert forall|x: Text| #[trigger] next.contains(x) implies !group_admits(known, x)
                    && forall|y: Text| #[trigger]
                    includes_of(known, x).contains(y) ==> next.contains(y) || all.contains(y) by {
                    if x != label {
                        assert(seen.contains(x));
                        assert forall|y: Text| #[trigger]
                            includes_of(known, x).contains(y) implies next.contains(y)
                            || all.contains(y) by {
                            assert(seen.contains(y) || stack.contains(y));
                            if seen.contains(y) {
                                assert(next.contains(y));
                            }
                            if y == label {
                                law_set_put_contains::<String>(seen, label, label);
                            }
                        }
                    }
                }
            }
            law_set_put_contains::<String>(seen, label, path[0]);
            lemma_refused(known, next, all, path);
        }
    }
}

proof fn lemma_stays(known: KnownGroups, seen: Seq<Text>, path: Seq<Text>, i: int)
    requires
        settled(known, seen, seq![]),
        is_path(known, path),
        seen.contains(path[0]),
        0 <= i < path.len(),
    ensures
        seen.contains(path[i]),
        !group_admits(known, path[i]),
    decreases i,
{
    if i > 0 {
        lemma_stays(known, seen, path, i - 1);
        assert(includes_of(known, path[i - 1]).contains(path[i - 1 + 1]));
    }
}

} // verus!
