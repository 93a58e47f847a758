//! Which targets may depend on which.

use vstd::prelude::*;
use vstd::string::*;
use crate::configured_nodes::ConfiguredTargetLabel;
use crate::module::InputError;
use crate::ordered::{Duplicate, lemma_push_contains, result_view};
use crate::text::{Text, same};

verus! {

/// How the visibility of a dependency is checked: for the target alone, for the
/// target or one of some packages, or not at all.
#[derive(Debug, PartialEq, Eq)]
pub enum CheckVisibility {
    Yes,
    OrPackages(Vec<String>),
    No,
}

/// The model of [`CheckVisibility`].
pub enum Check {
    Yes,
    OrPackages(Seq<Text>),
    No,
}

impl DeepView for CheckVisibility {
    type V = Check;

    open spec fn deep_view(&self) -> Check {
        match self {
            CheckVisibility::Yes => Check::Yes,
            CheckVisibility::OrPackages(packages) => Check::OrPackages(packages.deep_view()),
            CheckVisibility::No => Check::No,
        }
    }
}

impl Duplicate for CheckVisibility {
    fn duplicate(&self) -> (r: Self) {
        match self {
            CheckVisibility::Yes => CheckVisibility::Yes,
            CheckVisibility::OrPackages(packages) => CheckVisibility::OrPackages(
                packages.duplicate(),
            ),
            CheckVisibility::No => CheckVisibility::No,
        }
    }
}

impl Default for CheckVisibility {
    fn default() -> (r: Self)
        ensures
            r.deep_view() == Check::Yes,
    {
        CheckVisibility::Yes
    }
}

/// The packages with those of the others from `i` on that are not among them.
pub open spec fn with_packages(packages: Seq<Text>, more: Seq<Text>, i: int) -> Seq<Text>
    decreases more.len() - i,
{
    if i < 0 || i >= more.len() {
        packages
    } else if packages.contains(more[i]) {
        with_packages(packages, more, i + 1)
    } else {
        with_packages(packages.push(more[i]), more, i + 1)
    }
}

impl Check {
    /// The check that both ask for: the stricter one, or the packages of both.
    pub open spec fn merged(self, other: Check) -> Check {
        match (self, other) {
            (Check::Yes, _) => Check::Yes,
            (_, Check::Yes) => Check::Yes,
            (Check::No, check) => check,
            (Check::OrPackages(packages), Check::OrPackages(more)) => Check::OrPackages(
                with_packages(packages, more, 0),
            ),
            (check, Check::No) => check,
        }
    }
}

fn has_package(packages: &Vec<String>, package: &str) -> (r: bool)
    ensures
        r == packages.deep_view().contains(package@),
{
    let mut i: usize = 0;
    while i < packages.len()
        invariant
            0 <= i <= packages@.len(),
            forall|j: int| 0 <= j < i ==> #[trigger] packages.deep_view()[j] != package@,
        decreases packages.len() - i,
    {
        assert(packages.deep_view()[i as int] == packages@[i as int]@);
        if same(packages[i].as_str(), package) {
            return true;
        }
        i += 1;
    }
    false
}

fn add_packages(packages: &mut Vec<String>, more: &Vec<String>)
    ensures
        final(packages).deep_view() == with_packages(
            old(packages).deep_view(),
            more.deep_view(),
            0,
        ),
{
    let ghost first = packages.deep_view();
    let ghost model = more.deep_view();
    let mut i: usize = 0;
    while i < more.len()
        invariant
            model == more.deep_view(),
            0 <= i <= more@.len(),
            with_packages(first, model, 0) == with_packages(
                packages.deep_view(),
                model,
                i as int,
            ),
        decreases more.len() - i,
    {
        let ghost before = packages.deep_view();
        assert(model[i as int] == more@[i as int]@);
        if !has_package(packages, more[i].as_str()) {
            packages.push(more[i].clone());
            assert(packages.deep_view() =~= before.push(model[i as int]));
        }
        i += 1;
    }
}

impl CheckVisibility {
    /// The check for an attribute that comes with its own package, or without
    /// one.
    pub fn for_bazel_attr(implicit_package: Option<String>) -> (r: Self)
        ensures
            r.deep_view() == (match implicit_package.deep_view() {
                Some(package) => Check::OrPackages(seq![package]),
                None => Check::Yes,
            }),
    {
        match implicit_package {
            Some(package) => {
                let ghost p = package@;
                let mut packages: Vec<String> = Vec::new();
                packages.push(package);
                assert(packages.deep_view() =~= seq![p]);
                CheckVisibility::OrPackages(packages)
            },
            None => CheckVisibility::Yes,
        }
    }

    /// Takes in another check.
    pub fn merge(&mut self, other: &CheckVisibility)
        ensures
            final(self).deep_view() == old(self).deep_view().merged(other.deep_view()),
    {
        let merged = match (&*self, other) {
            (CheckVisibility::Yes, _) => CheckVisibility::Yes,
            (_, CheckVisibility::Yes) => CheckVisibility::Yes,
            (CheckVisibility::No, check) => check.duplicate(),
            (CheckVisibility::OrPackages(packages), CheckVisibility::OrPackages(more)) => {
                let mut all = packages.duplicate();
                add_packages(&mut all, more);
                CheckVisibility::OrPackages(all)
            },
            (check, CheckVisibility::No) => check.duplicate(),
        };
        *self = merged;
    }
}

/// The packages of both lists are in the joined one, and no others.
pub proof fn law_with_packages(packages: Seq<Text>, more: Seq<Text>, i: int, x: Text)
    requires
        0 <= i <= more.len(),
    ensures
        with_packages(packages, more, i).contains(x) == (packages.contains(x) || more.skip(
            i,
        ).contains(x)),
    decreases more.len() - i,
{
    if i < more.len() {
        let rest = more.skip(i);
        let tail = more.skip(i + 1);
        assert(rest =~= seq![more[i]] + tail);
        assert(rest.contains(x) == (x == more[i] || tail.contains(x))) by {
            if rest.contains(x) {
                let k = choose|k: int| 0 <= k < rest.len() && rest[k] == x;
                if k > 0 {
                    assert(tail[k - 1] == x);
                }
            }
            if x == more[i] {
                assert(rest[0] == x);
            }
            if tail.contains(x) {
                let k = choose|k: int| 0 <= k < tail.len() && tail[k] == x;
                assert(rest[k + 1] == x);
            }
        }
        if packages.contains(more[i]) {
            law_with_packages(packages, more, i + 1, x);
        } else {
            law_with_packages(packages.push(more[i]), more, i + 1, x);
            lemma_push_contains(packages, more[i], x);
        }
    } else {
        assert(!more.skip(i).contains(x));
    }
}

/// Merging a check with itself changes nothing, no check is neutral, and the
/// strict check stays.
pub proof fn law_merge(check: Check)
    ensures
        check.merged(check) == check,
        Check::No.merged(check) == check,
        check.merged(Check::No) == check,
        check.merged(Check::Yes) == Check::Yes,
        Check::Yes.merged(check) == Check::Yes,
{
    match check {
        Check::OrPackages(packages) => {
            lemma_with_own_packages(packages, 0);
        },
        _ => {},
    }
}

proof fn lemma_with_own_packages(packages: Seq<Text>, i: int)
    requires
        0 <= i <= packages.len(),
    ensures
        with_packages(packages, packages, i) == packages,
    decreases packages.len() - i,
{
    if i < packages.len() {
        assert(packages.contains(packages[i]));
        lemma_with_own_packages(packages, i + 1);
    }
}

/// Why a dependency could not be had.
#[derive(Debug, PartialEq, Eq)]
pub enum NodeError {
    NotVisibleTo(String, String),
    Other(InputError),
}

/// The model of [`NodeError`].
pub enum NodeErrorModel {
    NotVisibleTo(Text, Text),
    Other(Text),
}

impl DeepView for NodeError {
    type V = NodeErrorModel;

    open spec fn deep_view(&self) -> NodeErrorModel {
        match self {
            NodeError::NotVisibleTo(dep, target) => NodeErrorModel::NotVisibleTo(dep@, target@),
            NodeError::Other(e) => NodeErrorModel::Other(e.deep_view()),
        }
    }
}

impl Duplicate for NodeError {
    fn duplicate(&self) -> (r: Self) {
        match self {
            NodeError::NotVisibleTo(dep, target) => NodeError::NotVisibleTo(
                dep.clone(),
                target.clone(),
            ),
            NodeError::Other(e) => NodeError::Other(e.duplicate()),
        }
    }
}

/// What a platform lacks: a setting that is not met, or a choice by settings that
/// says, with its message, that it has no value there.
#[derive(Debug, PartialEq, Eq)]
pub enum IncompatiblePlatformReasonCause {
    UnsatisfiedConfig(String),
    SelectIncompatible(String),
}

/// The model of [`IncompatiblePlatformReasonCause`].
pub enum Cause {
    UnsatisfiedConfig(Text),
    SelectIncompatible(Text),
}

impl DeepView for IncompatiblePlatformReasonCause {
    type V = Cause;

    open spec fn deep_view(&self) -> Cause {
        match self {
            IncompatiblePlatformReasonCause::UnsatisfiedConfig(setting) => Cause::UnsatisfiedConfig(
                setting@,
            ),
            IncompatiblePlatformReasonCause::SelectIncompatible(message) => {
                Cause::SelectIncompatible(message@)
            },
        }
    }
}

impl Duplicate for IncompatiblePlatformReasonCause {
    fn duplicate(&self) -> (r: Self) {
        match self {
            IncompatiblePlatformReasonCause::UnsatisfiedConfig(setting) => {
                IncompatiblePlatformReasonCause::UnsatisfiedConfig(setting.clone())
            },
            IncompatiblePlatformReasonCause::SelectIncompatible(message) => {
                IncompatiblePlatformReasonCause::SelectIncompatible(message.clone())
            },
        }
    }
}

/// What makes a target unusable on a platform: what the platform lacks, and the
/// targets through which the one that asks for it is depended on, the outermost
/// first.
#[derive(Debug, PartialEq, Eq)]
pub struct IncompatiblePlatformReason {
    pub targets: Vec<String>,
    pub cause: IncompatiblePlatformReasonCause,
}

/// The model of [`IncompatiblePlatformReason`].
pub struct Incompatible {
    pub targets: Seq<Text>,
    pub cause: Cause,
}

impl DeepView for IncompatiblePlatformReason {
    type V = Incompatible;

    open spec fn deep_view(&self) -> Incompatible {
        Incompatible { targets: self.targets.deep_view(), cause: self.cause.deep_view() }
    }
}

impl Duplicate for IncompatiblePlatformReason {
    fn duplicate(&self) -> (r: Self) {
        IncompatiblePlatformReason {
            targets: self.targets.duplicate(),
            cause: self.cause.duplicate(),
        }
    }
}

impl Incompatible {
    /// The reason that a dependency with this one gives a target.
    pub open spec fn through(self, target: Text) -> Incompatible {
        Incompatible { targets: seq![target] + self.targets, cause: self.cause }
    }
}

/// A result, a reason why there can be none on the platform, or an error.
#[derive(Debug, PartialEq, Eq)]
pub enum ResultMaybeCompatible<T> {
    Compatible(T),
    Incompatible(IncompatiblePlatformReason),
    Error(NodeError),
}

/// The model of [`ResultMaybeCompatible`].
pub enum Outcome<T> {
    Compatible(T),
    Incompatible(Incompatible),
    Error(NodeErrorModel),
}

impl<T: DeepView> DeepView for ResultMaybeCompatible<T> {
    type V = Outcome<T::V>;

    open spec fn deep_view(&self) -> Outcome<T::V> {
        match self {
            ResultMaybeCompatible::Compatible(value) => Outcome::Compatible(value.deep_view()),
            ResultMaybeCompatible::Incompatible(reason) => Outcome::Incompatible(
                reason.deep_view(),
            ),
            ResultMaybeCompatible::Error(e) => Outcome::Error(e.deep_view()),
        }
    }
}

/// The errors and the reasons that were met so far.
#[derive(Debug, PartialEq, Eq)]
pub struct ErrorsAndIncompatibilities {
    pub errs: Vec<NodeError>,
    pub incompats: Vec<IncompatiblePlatformReason>,
}

/// The model of [`ErrorsAndIncompatibilities`].
pub struct Problems {
    pub errs: Seq<NodeErrorModel>,
    pub incompats: Seq<Incompatible>,
}

impl DeepView for ErrorsAndIncompatibilities {
    type V = Problems;

    open spec fn deep_view(&self) -> Problems {
        Problems { errs: self.errs.deep_view(), incompats: self.incompats.deep_view() }
    }
}

impl Problems {
    /// The problems with one more error.
    pub open spec fn with_err(self, e: NodeErrorModel) -> Problems {
        Problems { errs: self.errs.push(e), ..self }
    }

    /// The problems with one more reason.
    pub open spec fn with_incompat(self, reason: Incompatible) -> Problems {
        Problems { incompats: self.incompats.push(reason), ..self }
    }
}

fn reason_through(reason: IncompatiblePlatformReason, target: &str) -> (r:
    IncompatiblePlatformReason)
    ensures
        r.deep_view() == reason.deep_view().through(target@),
{
    let ghost before = reason.targets.deep_view();
    let mut targets: Vec<String> = Vec::new();
    targets.push(target.to_owned());
    assert(targets.deep_view() =~= seq![target@]);
    let mut more = reason.targets;
    targets.append(&mut more);
    assert(targets.deep_view() =~= seq![target@] + before);
    IncompatiblePlatformReason { targets, cause: reason.cause }
}

impl ErrorsAndIncompatibilities {
    /// No problems.
    pub fn new() -> (r: Self)
        ensures
            r.deep_view() == (Problems { errs: seq![], incompats: seq![] }),
    {
        let r = ErrorsAndIncompatibilities { errs: Vec::new(), incompats: Vec::new() };
        assert(r.deep_view().errs =~= seq![]);
        assert(r.deep_view().incompats =~= seq![]);
        r
    }

    /// Takes in an error.
    pub fn push_err(&mut self, e: NodeError)
        ensures
            final(self).deep_view() == old(self).deep_view().with_err(e.deep_view()),
    {
        let ghost before = self.errs.deep_view();
        let ghost added = e.deep_view();
        self.errs.push(e);
        assert(self.errs.deep_view() =~= before.push(added));
    }

    /// Takes in a reason.
    fn push_incompat(&mut self, reason: IncompatiblePlatformReason)
        ensures
            final(self).deep_view() == old(self).deep_view().with_incompat(reason.deep_view()),
    {
        let ghost before = self.incompats.deep_view();
        let ghost added = reason.deep_view();
        self.incompats.push(reason);
        assert(self.incompats.deep_view() =~= before.push(added));
    }

    /// Takes the dependency out of a result that has one, whatever its
    /// visibility, and notes why another has none.
    pub fn unpack_dep_no_visibility<T>(
        &mut self,
        target_label: &ConfiguredTargetLabel,
        result: ResultMaybeCompatible<T>,
    ) -> (r: Option<T>)
        ensures
            match result {
                ResultMaybeCompatible::Compatible(dep) => r == Some(dep)
                    && final(self).deep_view() == old(self).deep_view(),
                ResultMaybeCompatible::Incompatible(reason) => r is None && final(self).deep_view()
                    == old(self).deep_view().with_incompat(
                    reason.deep_view().through(target_label.deep_view().text()),
                ),
                ResultMaybeCompatible::Error(e) => r is None && final(self).deep_view() == old(
                    self,
                ).deep_view().with_err(e.deep_view()),
            },
    {
        match result {
            ResultMaybeCompatible::Error(e) => {
                self.push_err(e);
                None
            },
            ResultMaybeCompatible::Incompatible(reason) => {
                self.push_incompat(reason_through(reason, target_label.display().as_str()));
                None
            },
            ResultMaybeCompatible::Compatible(dep) => Some(dep),
        }
    }

    /// Appends the dependency of a result that has one, whatever its
    /// visibility, and notes why another has none.
    pub fn unpack_dep_no_visibility_into<T>(
        &mut self,
        target_label: &ConfiguredTargetLabel,
        result: ResultMaybeCompatible<T>,
        list: &mut Vec<T>,
    )
        ensures
            match result {
                ResultMaybeCompatible::Compatible(dep) => final(list)@ == old(list)@.push(dep)
                    && final(self).deep_view() == old(self).deep_view(),
                ResultMaybeCompatible::Incompatible(reason) => final(list)@ == old(list)@
                    && final(self).deep_view() == old(self).deep_view().with_incompat(
                    reason.deep_view().through(target_label.deep_view().text()),
                ),
                ResultMaybeCompatible::Error(e) => final(list)@ == old(list)@
                    && final(self).deep_view() == old(self).deep_view().with_err(e.deep_view()),
            },
    {
        match self.unpack_dep_no_visibility(target_label, result) {
            Some(dep) => {
                list.push(dep);
            },
            None => {},
        }
    }

    /// Takes the dependency out of a result that has one, where it is visible or
    /// that is not checked, and notes why another cannot be had.
    pub fn unpack_dep<T>(
        &mut self,
        target_label: &ConfiguredTargetLabel,
        dep_label: &str,
        result: ResultMaybeCompatible<T>,
        check_visibility: &CheckVisibility,
        visible: Result<bool, InputError>,
    ) -> (r: Option<T>)
        ensures
            match result {
                ResultMaybeCompatible::Compatible(dep) => if check_visibility.deep_view() is No
                    || visible == Ok::<bool, InputError>(true) {
                    r == Some(dep) && final(self).deep_view() == old(self).deep_view()
                } else {
                    r is None && final(self).deep_view() == old(self).deep_view().with_err(
                        match visible {
                            Ok(_) => NodeErrorModel::NotVisibleTo(
                                dep_label@,
                                target_label.unconfigured@,
                            ),
                            Err(e) => NodeErrorModel::Other(e.deep_view()),
                        },
                    )
                },
                ResultMaybeCompatible::Incompatible(reason) => r is None && final(self).deep_view()
                    == old(self).deep_view().with_incompat(
                    reason.deep_view().through(target_label.deep_view().text()),
                ),
                ResultMaybeCompatible::Error(e) => r is None && final(self).deep_view() == old(
                    self,
                ).deep_view().with_err(e.deep_view()),
            },
    {
        match self.unpack_dep_no_visibility(target_label, result) {
            None => None,
            Some(dep) => {
                match check_visibility {
                    CheckVisibility::No => {
                        return Some(dep);
                    },
                    _ => {},
                }
                match visible {
                    Ok(true) => Some(dep),
                    Ok(false) => {
                        self.push_err(
                            NodeError::NotVisibleTo(
                                dep_label.to_owned(),
                                target_label.unconfigured.clone(),
                            ),
                        );
                        None
                    },
                    Err(e) => {
                        self.push_err(NodeError::Other(e));
                        None
                    },
                }
            },
        }
    }

    /// The last reason, or else the last error, or else that there is none.
    pub fn finalize(self) -> (r: ResultMaybeCompatible<()>)
        ensures
            ({
                let all = self.deep_view();
                if all.incompats.len() > 0 {
                    r matches ResultMaybeCompatible::Incompatible(reason) && reason.deep_view()
                        == all.incompats.last()
                } else if all.errs.len() > 0 {
                    r matches ResultMaybeCompatible::Error(e) && e.deep_view() == all.errs.last()
                } else {
                    r is Compatible
                }
            }),
    {
        let mut incompats = self.incompats;
        let mut errs = self.errs;
        assert(self.deep_view().incompats.len() == incompats@.len());
        assert(self.deep_view().errs.len() == errs@.len());
        match incompats.pop() {
            Some(reason) => {
                return ResultMaybeCompatible::Incompatible(reason);
            },
            None => {},
        }
        match errs.pop() {
            Some(e) => {
                return ResultMaybeCompatible::Error(e);
            },
            None => {},
        }
        ResultMaybeCompatible::Compatible(())
    }
}

/// What is known of the visibility of a dependency to a target: whether it is a
/// package group, whether its own list admits the target, and whether one of its
/// groups does.
pub struct VisibilityAnswers {
    pub is_package_group: bool,
    pub visible_to_target: Result<bool, InputError>,
    pub groups_allow_target: Result<bool, InputError>,
}

/// The first of the packages from `i` on that decides: an error, or that the
/// dependency is visible there.
pub open spec fn packages_decide(
    answers: Seq<(Result<bool, InputError>, Result<bool, InputError>)>,
    i: int,
) -> Result<bool, InputError>
    decreases answers.len() - i,
{
    if i < 0 || i >= answers.len() {
        Ok(false)
    } else {
        match answers[i].0 {
            Err(e) => Err(e),
            Ok(true) => Ok(true),
            Ok(false) => match answers[i].1 {
                Err(e) => Err(e),
                Ok(true) => Ok(true),
                Ok(false) => packages_decide(answers, i + 1),
            },
        }
    }
}

/// Whether a dependency is visible: any package group is; else its own list, its
/// groups and, where the check names packages, what the packages see decide in
/// turn.
pub open spec fn is_visible(
    a: VisibilityAnswers,
    check: Check,
    packages: Seq<(Result<bool, InputError>, Result<bool, InputError>)>,
) -> Result<bool, InputError> {
    if a.is_package_group {
        Ok(true)
    } else {
        match a.visible_to_target {
            Err(e) => Err(e),
            Ok(true) => Ok(true),
            Ok(false) => match a.groups_allow_target {
                Err(e) => Err(e),
                Ok(true) => Ok(true),
                Ok(false) => match check {
                    Check::OrPackages(_) => packages_decide(packages, 0),
                    _ => Ok(false),
                },
            },
        }
    }
}

/// A copy of an answer.
fn copy_answer(a: &Result<bool, InputError>) -> (r: Result<bool, InputError>)
    ensures
        result_view(r) == result_view(*a),
        r is Ok == a is Ok,
        r is Ok ==> r->Ok_0 == a->Ok_0,
{
    match a {
        Ok(b) => Ok(*b),
        Err(e) => Err(e.duplicate()),
    }
}

/// Whether a dependency is visible to a target. The answers for the packages are
/// whether the dependency's own list admits each, and whether its groups do.
pub fn target_node_dependency_is_visible(
    answers: &VisibilityAnswers,
    check_visibility: &CheckVisibility,
    packages: &Vec<(Result<bool, InputError>, Result<bool, InputError>)>,
) -> (r: Result<bool, InputError>)
    ensures
        result_view(r) == result_view(
            is_visible(*answers, check_visibility.deep_view(), packages@),
        ),
{
    if answers.is_package_group {
        return Ok(true);
    }
    match &answers.visible_to_target {
        Err(e) => {
            return Err(e.duplicate());
        },
        Ok(true) => {
            return Ok(true);
        },
        Ok(false) => {},
    }
    match &answers.groups_allow_target {
        Err(e) => {
            return Err(e.duplicate());
        },
        Ok(true) => {
            return Ok(true);
        },
        Ok(false) => {},
    }
    match check_visibility {
        CheckVisibility::OrPackages(_) => {},
        _ => {
            return Ok(false);
        },
    }
    let ghost whole = packages_decide(packages@, 0);
    let mut i: usize = 0;
    while i < packages.len()
        invariant
            0 <= i <= packages@.len(),
            whole == packages_decide(packages@, i as int),
            whole == is_visible(*answers, check_visibility.deep_view(), packages@),
        decreases packages.len() - i,
    {
        match copy_answer(&packages[i].0) {
            Ok(false) => {},
            decided => {
                return decided;
            },
        }
        match copy_answer(&packages[i].1) {
            Ok(false) => {},
            decided => {
                return decided;
            },
        }
        i += 1;
    }
    Ok(false)
}

/// A package group is always visible. Any other dependency is visible exactly where its own
/// list admits the target, one of its groups does, or, where the check names packages, one
/// of these is admitted by its list or its groups.
pub proof fn law_dependency_visible(
    answers: VisibilityAnswers,
    check: Check,
    packages: Seq<(Result<bool, InputError>, Result<bool, InputError>)>,
)
    requires
        answers.visible_to_target is Ok,
        answers.groups_allow_target is Ok,
        forall|i: int|
            0 <= i < packages.len() ==> (#[trigger] packages[i]).0 is Ok && packages[i].1 is Ok,
    ensures
        is_visible(answers, check, packages) == Ok::<bool, InputError>(
            answers.is_package_group || answers.visible_to_target->Ok_0
                || answers.groups_allow_target->Ok_0 || (check is OrPackages && exists|i: int|
                0 <= i < packages.len() && ((#[trigger] packages[i]).0->Ok_0
                    || packages[i].1->Ok_0)),
        ),
{
    lemma_packages_decide(packages, 0);
}

proof fn lemma_packages_decide(
    packages: Seq<(Result<bool, InputError>, Result<bool, InputError>)>,
    i: int,
)
    requires
        0 <= i <= packages.len(),
        forall|j: int|
            0 <= j < packages.len() ==> (#[trigger] packages[j]).0 is Ok && packages[j].1 is Ok,
    ensures
        packages_decide(packages, i) == Ok::<bool, InputError>(
            exists|j: int|
                i <= j < packages.len() && ((#[trigger] packages[j]).0->Ok_0
                    || packages[j].1->Ok_0),
        ),
    decreases packages.len() - i,
{
    if i < packages.len() {
        lemma_packages_decide(packages, i + 1);
        assert(packages[i].0 is Ok);
        if !packages[i].0->Ok_0 && !packages[i].1->Ok_0 {
            assert((exists|j: int|
                i <= j < packages.len() && ((#[trigger] packages[j]).0->Ok_0
                    || packages[j].1->Ok_0)) == (exists|j: int|
                i + 1 <= j < packages.len() && ((#[trigger] packages[j]).0->Ok_0
                    || packages[j].1->Ok_0)));
        }
    }
}

/// What ends a target is a reason where there is one, the last that was met, and only then
/// an error, the last.
pub proof fn law_last_problem_decides(
    problems: ErrorsAndIncompatibilities,
    result: ResultMaybeCompatible<()>,
)
    requires
        call_ensures(ErrorsAndIncompatibilities::finalize, (problems,), result),
    ensures
        problems.incompats@.len() > 0 ==> (result matches ResultMaybeCompatible::Incompatible(
            reason,
        ) && reason.deep_view() == problems.incompats@.last().deep_view()),
        problems.incompats@.len() == 0 && problems.errs@.len() > 0 ==> (
        result matches ResultMaybeCompatible::Error(e) && e.deep_view()
            == problems.errs@.last().deep_view()),
        problems.incompats@.len() == 0 && problems.errs@.len() == 0 ==> result is Compatible,
{
    assert(problems.incompats.deep_view().len() == problems.incompats@.len());
    assert(problems.errs.deep_view().len() == problems.errs@.len());
    if problems.incompats@.len() > 0 {
        assert(problems.incompats.deep_view().last() == problems.incompats@.last().deep_view());
    }
    if problems.errs@.len() > 0 {
        assert(problems.errs.deep_view().last() == problems.errs@.last().deep_view());
    }
}

} // verus!
