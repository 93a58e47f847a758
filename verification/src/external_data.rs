//! The parts of a configuration that come from outside the project.

use vstd::prelude::*;
use vstd::string::*;
use crate::config::{ConfigValue, Location, Place, ResolvedValue, places};
use crate::filter::{BuckconfigKeyRef, answers, filter_config, filtered, kept_entries};
use crate::module_aliases::{BazelModuleCellAliases, BazelModuleCellAliasesModel, same_aliases};
use crate::ordered::Duplicate;
use crate::paths::{ConfigPath, ConfigPathModel};
use crate::sections::{ConfigItems, LegacyBuckConfig, LegacyBuckConfigSection};
use crate::text::{Text, same};

verus! {

/// A value that can be held against another of its kind by model.
pub trait SameModel: DeepView + Sized {
    fn same_model(&self, other: &Self) -> (r: bool)
        ensures
            r == (self.deep_view() == other.deep_view()),
    ;
}

impl SameModel for String {
    fn same_model(&self, other: &Self) -> (r: bool) {
        same(self.as_str(), other.as_str())
    }
}

impl<T: SameModel> SameModel for Option<T> {
    fn same_model(&self, other: &Self) -> (r: bool) {
        match (self, other) {
            (Some(a), Some(b)) => a.same_model(b),
            (None, None) => true,
            _ => false,
        }
    }
}

impl<T: SameModel> SameModel for Vec<T> {
    fn same_model(&self, other: &Self) -> (r: bool) {
        assert(self.deep_view().len() == self@.len());
        assert(other.deep_view().len() == other@.len());
        if self.len() != other.len() {
            return false;
        }
        let mut i: usize = 0;
        while i < self.len()
            invariant
                self@.len() == other@.len(),
                0 <= i <= self@.len(),
                forall|j: int|
                    0 <= j < i ==> #[trigger] self.deep_view()[j] == other.deep_view()[j],
            decreases self.len() - i,
        {
            assert(self.deep_view()[i as int] == self@[i as int].deep_view());
            assert(other.deep_view()[i as int] == other@[i as int].deep_view());
            if !self[i].same_model(&other[i]) {
                return false;
            }
            i += 1;
        }
        assert(self.deep_view() =~= other.deep_view());
        true
    }
}

fn same_location(a: &Location, b: &Location) -> (r: bool)
    ensures
        r == (places(*a) == places(*b)),
    decreases *a,
{
    match (a, b) {
        (Location::File(x), Location::File(y)) => {
            let ghost p = places(*a);
            let ghost q = places(*b);
            assert(p[0] == Place::File(x.source_file.path@, x.line));
            assert(q[0] == Place::File(y.source_file.path@, y.line));
            if x.line != y.line || !same(
                x.source_file.path.as_str(),
                y.source_file.path.as_str(),
            ) {
                return false;
            }
            match (&x.source_file.include_source, &y.source_file.include_source) {
                (Some(from), Some(other)) => {
                    assert(p.skip(1) =~= places(**from));
                    assert(q.skip(1) =~= places(**other));
                    same_location(from, other)
                },
                (None, None) => true,
                (Some(from), None) => {
                    assert(p.skip(1) =~= places(**from));
                    proof {
                        lemma_places_some(**from);
                    }
                    assert(q.len() == 1);
                    false
                },
                (None, Some(other)) => {
                    assert(q.skip(1) =~= places(**other));
                    proof {
                        lemma_places_some(**other);
                    }
                    assert(p.len() == 1);
                    false
                },
            }
        },
        (Location::CommandLineArgument, Location::CommandLineArgument) => true,
        (Location::File(_), Location::CommandLineArgument) => {
            assert(places(*a)[0] is File);
            assert(places(*b)[0] is CommandLineArgument);
            false
        },
        (Location::CommandLineArgument, Location::File(_)) => {
            assert(places(*b)[0] is File);
            assert(places(*a)[0] is CommandLineArgument);
            false
        },
    }
}

proof fn lemma_places_some(l: Location)
    ensures
        places(l).len() > 0,
{
}

impl SameModel for ConfigValue {
    fn same_model(&self, other: &Self) -> (r: bool) {
        if !same(self.raw_value.as_str(), other.raw_value.as_str()) || !same_location(
            &self.source,
            &other.source,
        ) {
            return false;
        }
        match (&self.resolved_value, &other.resolved_value) {
            (ResolvedValue::Unknown, ResolvedValue::Unknown) => true,
            (ResolvedValue::Literal, ResolvedValue::Literal) => true,
            (ResolvedValue::Resolved(a), ResolvedValue::Resolved(b)) => same(
                a.as_str(),
                b.as_str(),
            ),
            _ => false,
        }
    }
}

impl SameModel for LegacyBuckConfigSection {
    fn same_model(&self, other: &Self) -> (r: bool) {
        let a = self.entries();
        let b = other.entries();
        assert(a.deep_view().len() == a@.len());
        assert(b.deep_view().len() == b@.len());
        if a.len() != b.len() {
            return false;
        }
        let mut i: usize = 0;
        while i < a.len()
            invariant
                a.deep_view() == self.deep_view(),
                b.deep_view() == other.deep_view(),
                a@.len() == b@.len(),
                0 <= i <= a@.len(),
                forall|j: int| 0 <= j < i ==> #[trigger] a.deep_view()[j] == b.deep_view()[j],
            decreases a.len() - i,
        {
            assert(a.deep_view()[i as int] == (a@[i as int].0@, a@[i as int].1.deep_view()));
            assert(b.deep_view()[i as int] == (b@[i as int].0@, b@[i as int].1.deep_view()));
            if !same(a[i].0.as_str(), b[i].0.as_str()) || !a[i].1.same_model(b[i].1) {
                return false;
            }
            i += 1;
        }
        assert(a.deep_view() =~= b.deep_view());
        true
    }
}

impl SameModel for LegacyBuckConfig {
    fn same_model(&self, other: &Self) -> (r: bool) {
        let a = self.sections();
        let b = other.sections();
        assert(a.deep_view().len() == a@.len());
        assert(b.deep_view().len() == b@.len());
        if a.len() != b.len() {
            return false;
        }
        let mut i: usize = 0;
        while i < a.len()
            invariant
                a.deep_view() == self.deep_view(),
                b.deep_view() == other.deep_view(),
                a@.len() == b@.len(),
                0 <= i <= a@.len(),
                forall|j: int| 0 <= j < i ==> #[trigger] a.deep_view()[j] == b.deep_view()[j],
            decreases a.len() - i,
        {
            assert(a.deep_view()[i as int] == (a@[i as int].0@, a@[i as int].1.deep_view()));
            assert(b.deep_view()[i as int] == (b@[i as int].0@, b@[i as int].1.deep_view()));
            if !same(a[i].0.as_str(), b[i].0.as_str()) || !a[i].1.same_model(b[i].1) {
                return false;
            }
            i += 1;
        }
        assert(a.deep_view() =~= b.deep_view());
        true
    }
}

impl SameModel for ConfigPath {
    fn same_model(&self, other: &Self) -> (r: bool) {
        match (self, other) {
            (ConfigPath::Project(a), ConfigPath::Project(b)) => same(a.as_str(), b.as_str()),
            (ConfigPath::Global(a), ConfigPath::Global(b)) => same(a.as_str(), b.as_str()),
            _ => false,
        }
    }
}

/// What was read of a configuration file outside the project.
#[derive(Debug)]
pub struct ExternalPathBuckconfigData {
    pub parse_state: LegacyBuckConfig,
    pub origin_path: ConfigPath,
}

/// The model of [`ExternalPathBuckconfigData`].
pub struct ExternalPathModel {
    pub parse_state: ConfigItems,
    pub origin_path: ConfigPathModel,
}

impl DeepView for ExternalPathBuckconfigData {
    type V = ExternalPathModel;

    open spec fn deep_view(&self) -> ExternalPathModel {
        ExternalPathModel {
            parse_state: self.parse_state.deep_view(),
            origin_path: self.origin_path.deep_view(),
        }
    }
}

impl SameModel for ExternalPathBuckconfigData {
    fn same_model(&self, other: &Self) -> (r: bool) {
        self.parse_state.same_model(&other.parse_state) && self.origin_path.same_model(
            &other.origin_path,
        )
    }
}

/// A setting on the command line, perhaps for one cell.
#[derive(Debug)]
pub struct ResolvedConfigFlag {
    pub section: String,
    pub key: String,
    pub value: Option<String>,
    pub cell: Option<String>,
}

/// The model of [`ResolvedConfigFlag`].
pub struct ConfigFlagModel {
    pub section: Text,
    pub key: Text,
    pub value: Option<Text>,
    pub cell: Option<Text>,
}

impl DeepView for ResolvedConfigFlag {
    type V = ConfigFlagModel;

    open spec fn deep_view(&self) -> ConfigFlagModel {
        ConfigFlagModel {
            section: self.section@,
            key: self.key@,
            value: self.value.deep_view(),
            cell: self.cell.deep_view(),
        }
    }
}

impl SameModel for ResolvedConfigFlag {
    fn same_model(&self, other: &Self) -> (r: bool) {
        self.section.same_model(&other.section) && self.key.same_model(&other.key)
            && self.value.same_model(&other.value) && self.cell.same_model(&other.cell)
    }
}

/// An argument about the configuration: a setting, a file of the project, or
/// what was read of a file outside it.
#[derive(Debug)]
pub enum ResolvedLegacyConfigArg {
    Flag(ResolvedConfigFlag),
    ProjectFile(String),
    GlobalFile(ExternalPathBuckconfigData),
}

/// The model of [`ResolvedLegacyConfigArg`].
pub enum ConfigArgModel {
    Flag(ConfigFlagModel),
    ProjectFile(Text),
    GlobalFile(ExternalPathModel),
}

impl DeepView for ResolvedLegacyConfigArg {
    type V = ConfigArgModel;

    open spec fn deep_view(&self) -> ConfigArgModel {
        match self {
            ResolvedLegacyConfigArg::Flag(flag) => ConfigArgModel::Flag(flag.deep_view()),
            ResolvedLegacyConfigArg::ProjectFile(path) => ConfigArgModel::ProjectFile(path@),
            ResolvedLegacyConfigArg::GlobalFile(file) => ConfigArgModel::GlobalFile(
                file.deep_view(),
            ),
        }
    }
}

impl SameModel for ResolvedLegacyConfigArg {
    fn same_model(&self, other: &Self) -> (r: bool) {
        match (self, other) {
            (ResolvedLegacyConfigArg::Flag(a), ResolvedLegacyConfigArg::Flag(b)) => a.same_model(b),
            (ResolvedLegacyConfigArg::ProjectFile(a), ResolvedLegacyConfigArg::ProjectFile(b)) => {
                a.same_model(b)
            },
            (ResolvedLegacyConfigArg::GlobalFile(a), ResolvedLegacyConfigArg::GlobalFile(b)) => {
                a.same_model(b)
            },
            _ => false,
        }
    }
}

/// The parts of a configuration that come from outside the project: files, the
/// command line, and what the module file leads to.
pub struct ExternalBuckconfigData {
    pub external_path_configs: Vec<ExternalPathBuckconfigData>,
    pub args: Vec<ResolvedLegacyConfigArg>,
    pub bzlmod_module_aliases: Option<BazelModuleCellAliases>,
}

/// The model of [`ExternalBuckconfigData`].
pub struct ExternalDataModel {
    pub external_path_configs: Seq<ExternalPathModel>,
    pub args: Seq<ConfigArgModel>,
    pub bzlmod_module_aliases: Option<BazelModuleCellAliasesModel>,
}

impl DeepView for ExternalBuckconfigData {
    type V = ExternalDataModel;

    open spec fn deep_view(&self) -> ExternalDataModel {
        ExternalDataModel {
            external_path_configs: self.external_path_configs.deep_view(),
            args: self.args.deep_view(),
            bzlmod_module_aliases: self.bzlmod_module_aliases.deep_view(),
        }
    }
}

/// What counts for the data to be the same: all but the modules of the module
/// file.
pub open spec fn same_data(a: ExternalDataModel, b: ExternalDataModel) -> bool {
    &&& a.external_path_configs == b.external_path_configs
    &&& a.args == b.args
    &&& match (a.bzlmod_module_aliases, b.bzlmod_module_aliases) {
        (Some(x), Some(y)) => same_aliases(x, y),
        (None, None) => true,
        _ => false,
    }
}

/// Being the same data is an equivalence.
pub proof fn law_same_data(a: ExternalDataModel, b: ExternalDataModel, c: ExternalDataModel)
    ensures
        same_data(a, a),
        same_data(a, b) ==> same_data(b, a),
        same_data(a, b) && same_data(b, c) ==> same_data(a, c),
{
}

/// The answer that counts for an argument: one of the filter for a setting that
/// is not for one cell, and yes for any other.
pub open spec fn arg_answers<F: Fn(&BuckconfigKeyRef<'_>) -> bool>(
    filter: F,
    arg: ConfigArgModel,
    keep: bool,
) -> bool {
    match arg {
        ConfigArgModel::Flag(flag) => if flag.cell is Some {
            keep
        } else {
            answers(filter, flag.section, flag.key, keep)
        },
        _ => keep,
    }
}

/// Each answer is one that counts for the argument in its place.
pub open spec fn all_arg_answers<F: Fn(&BuckconfigKeyRef<'_>) -> bool>(
    filter: F,
    args: Seq<ConfigArgModel>,
    kept: Seq<bool>,
) -> bool {
    &&& kept.len() == args.len()
    &&& forall|i: int| 0 <= i < args.len() ==> arg_answers(filter, args[i], #[trigger] kept[i])
}

/// The arguments are what the filter leaves of others.
pub open spec fn filtered_args<F: Fn(&BuckconfigKeyRef<'_>) -> bool>(
    filter: F,
    args: Seq<ConfigArgModel>,
    out: Seq<ConfigArgModel>,
) -> bool {
    exists|kept: Seq<bool>| #[trigger]
        all_arg_answers(filter, args, kept) && out == kept_entries(args, kept)
}

/// What was read of the files is what the filter leaves of it, file by file.
pub open spec fn filtered_files<F: Fn(&BuckconfigKeyRef<'_>) -> bool>(
    filter: F,
    files: Seq<ExternalPathModel>,
    out: Seq<ExternalPathModel>,
) -> bool {
    &&& out.len() == files.len()
    &&& forall|i: int|
        0 <= i < files.len() ==> (#[trigger] out[i]).origin_path == files[i].origin_path
            && filtered(filter, files[i].parse_state, out[i].parse_state)
}

impl ExternalBuckconfigData {
    /// Whether the two make the same configuration.
    pub fn dice_config_equal(&self, other: &Self) -> (r: bool)
        ensures
            r == same_data(self.deep_view(), other.deep_view()),
    {
        self.external_path_configs.same_model(&other.external_path_configs)
            && self.args.same_model(&other.args) && match (
            &self.bzlmod_module_aliases,
            &other.bzlmod_module_aliases,
        ) {
            (Some(x), Some(y)) => x.dice_config_equal(y),
            (None, None) => true,
            _ => false,
        }
    }

    /// Nothing from outside.
    pub fn testing_default() -> (r: Self)
        ensures
            r.deep_view() == (ExternalDataModel {
                external_path_configs: seq![],
                args: seq![],
                bzlmod_module_aliases: None,
            }),
    {
        let r = ExternalBuckconfigData {
            external_path_configs: Vec::new(),
            args: Vec::new(),
            bzlmod_module_aliases: None,
        };
        assert(r.deep_view().external_path_configs =~= seq![]);
        assert(r.deep_view().args =~= seq![]);
        r
    }

    /// The data with the values that the filter keeps; settings for one cell
    /// and files are kept in any case.
    pub fn filter_values<F: Fn(&BuckconfigKeyRef<'_>) -> bool>(self, filter: F) -> (r: Self)
        requires
            forall|k: &BuckconfigKeyRef<'_>| #[trigger] filter.requires((k,)),
        ensures
            filtered_files(
                filter,
                self.deep_view().external_path_configs,
                r.deep_view().external_path_configs,
            ),
            filtered_args(filter, self.deep_view().args, r.deep_view().args),
            r.deep_view().bzlmod_module_aliases == self.deep_view().bzlmod_module_aliases,
    {
        ExternalBuckconfigData {
            external_path_configs: filter_files(self.external_path_configs, &filter),
            args: filter_args(self.args, &filter),
            bzlmod_module_aliases: self.bzlmod_module_aliases,
        }
    }
}

fn filter_files<F: Fn(&BuckconfigKeyRef<'_>) -> bool>(
    files: Vec<ExternalPathBuckconfigData>,
    filter: &F,
) -> (r: Vec<ExternalPathBuckconfigData>)
    requires
        forall|k: &BuckconfigKeyRef<'_>| #[trigger] filter.requires((k,)),
    ensures
        filtered_files(*filter, files.deep_view(), r.deep_view()),
{
    let ghost model = files.deep_view();
    let mut out: Vec<ExternalPathBuckconfigData> = Vec::new();
    let mut i: usize = 0;
    while i < files.len()
        invariant
            model == files.deep_view(),
            0 <= i <= files@.len(),
            forall|k: &BuckconfigKeyRef<'_>| #[trigger] filter.requires((k,)),
            filtered_files(*filter, model.take(i as int), out.deep_view()),
        decreases files.len() - i,
    {
        let ghost before = out.deep_view();
        let file = &files[i];
        assert(model[i as int] == file.deep_view());
        let next = ExternalPathBuckconfigData {
            parse_state: filter_config(&file.parse_state, filter),
            origin_path: file.origin_path.duplicate(),
        };
        let ghost added = next.deep_view();
        out.push(next);
        assert(out.deep_view() =~= before.push(added));
        proof {
            let t = model.take(i + 1);
            let now = out.deep_view();
            assert forall|j: int| 0 <= j < t.len() implies (#[trigger] now[j]).origin_path
                == t[j].origin_path && filtered(*filter, t[j].parse_state, now[j].parse_state) by {
                if j < i {
                    assert(now[j] == before[j]);
                    assert(t[j] == model.take(i as int)[j]);
                }
            }
        }
        i += 1;
    }
    assert(model.take(i as int) =~= model);
    out
}

fn filter_args<F: Fn(&BuckconfigKeyRef<'_>) -> bool>(
    args: Vec<ResolvedLegacyConfigArg>,
    filter: &F,
) -> (r: Vec<ResolvedLegacyConfigArg>)
    requires
        forall|k: &BuckconfigKeyRef<'_>| #[trigger] filter.requires((k,)),
    ensures
        filtered_args(*filter, args.deep_view(), r.deep_view()),
{
    let ghost model = args.deep_view();
    let mut left = args;
    let mut out: Vec<ResolvedLegacyConfigArg> = Vec::new();
    let ghost mut kept: Seq<bool> = seq![];
    let ghost mut done: int = 0;
    assert(left.deep_view() =~= model.skip(0));
    assert(out.deep_view() =~= seq![]);
    while left.len() > 0
        invariant
            0 <= done <= model.len(),
            left.deep_view() == model.skip(done),
            forall|k: &BuckconfigKeyRef<'_>| #[trigger] filter.requires((k,)),
            all_arg_answers(*filter, model.take(done), kept),
            out.deep_view() == kept_entries(model.take(done), kept),
        decreases left.len(),
    {
        let ghost before = out.deep_view();
        let ghost rest = left.deep_view();
        let arg = left.remove(0);
        let ghost it = arg.deep_view();
        assert(left.deep_view().len() == left@.len());
        assert(left.deep_view() =~= rest.skip(1));
        assert(rest[0] == it);
        assert(rest[0] == model[done]);
        let keep = match &arg {
            ResolvedLegacyConfigArg::Flag(flag) => if flag.cell.is_some() {
                true
            } else {
                let key = BuckconfigKeyRef {
                    section: flag.section.as_str(),
                    property: flag.key.as_str(),
                };
                filter(&key)
            },
            _ => true,
        };
        assert(arg_answers(*filter, it, keep));
        if keep {
            out.push(arg);
            assert(out.deep_view() =~= before.push(it));
        }
        proof {
            let was = kept;
            let t = model.take(done + 1);
            kept = kept.push(keep);
            assert(t.drop_last() =~= model.take(done));
            assert(t.last() == it);
            assert(kept.drop_last() =~= was);
            assert forall|j: int| 0 <= j < t.len() implies arg_answers(
                *filter,
                t[j],
                #[trigger] kept[j],
            ) by {
                if j < done {
                    assert(kept[j] == was[j]);
                    assert(t[j] == model.take(done)[j]);
                }
            }
            done = done + 1;
            assert(rest.skip(1) =~= model.skip(done));
        }
    }
    assert(left.deep_view().len() == left@.len());
    assert(model.take(done) =~= model);
    out
}

} // verus!
