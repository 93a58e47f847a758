//! The configuration of a Bazel platform.

use vstd::prelude::*;
use vstd::string::*;
use crate::attrs::{ProvidersLabel, ProvidersLabelModel, all_providers};
use crate::build_settings::{
    BazelBuildSettingValue, SettingValue, Settings, add_settings, label_results, same_settings,
    with_settings,
};
use crate::module::InputError;
use crate::ordered::{
    Duplicate, KeyMap, OrderedKey, law_lookup_after_put, law_put_sorted, lemma_text_lt_irreflexive,
    lemma_text_lt_transitive, lookup, put, result_view, sorted_items, text_lt,
};
use crate::text::{Text, concat3};

verus! {

pub const BAZEL_PLATFORMS_OPTION: &'static str = "//command_line_option:platforms";

/// What a configuration is made of: the constraints of its platform, and build
/// settings.
pub struct ConfigurationDataData {
    pub constraints: KeyMap<String, String>,
    pub build_settings: KeyMap<String, BazelBuildSettingValue>,
}

/// The model of [`ConfigurationDataData`].
pub struct ConfigurationModel {
    pub constraints: Seq<(Text, Text)>,
    pub build_settings: Settings,
}

impl DeepView for ConfigurationDataData {
    type V = ConfigurationModel;

    open spec fn deep_view(&self) -> ConfigurationModel {
        ConfigurationModel {
            constraints: self.constraints.deep_view(),
            build_settings: self.build_settings.deep_view(),
        }
    }
}

/// The platforms that a setting names: the targets of labels, or texts to be parsed
/// as labels; any other value names none.
pub enum PlatformNames {
    Targets(Vec<String>),
    Texts(Vec<String>),
    Unsupported,
}

/// The targets of labels.
pub open spec fn targets_of(labels: Seq<ProvidersLabelModel>) -> Seq<Text> {
    Seq::new(labels.len(), |i: int| labels[i].target)
}

fn label_targets(labels: &Vec<ProvidersLabel>) -> (r: Vec<String>)
    ensures
        r.deep_view() == targets_of(labels.deep_view()),
{
    let ghost model = targets_of(labels.deep_view());
    let mut out: Vec<String> = Vec::new();
    let mut i: usize = 0;
    assert(labels.deep_view().len() == labels@.len());
    assert(out.deep_view() =~= model.take(0));
    while i < labels.len()
        invariant
            model == targets_of(labels.deep_view()),
            model.len() == labels@.len(),
            0 <= i <= labels@.len(),
            out.deep_view() =~= model.take(i as int),
        decreases labels.len() - i,
    {
        let ghost before = out.deep_view();
        assert(labels.deep_view()[i as int] == labels@[i as int].deep_view());
        out.push(labels[i].target.clone());
        assert(out.deep_view() =~= before.push(model[i as int]));
        i += 1;
    }
    assert(model.take(i as int) =~= model);
    out
}

/// The platforms that a setting names.
pub fn bazel_platform_names(value: &BazelBuildSettingValue) -> (r: PlatformNames)
    ensures
        match value.deep_view() {
            SettingValue::Label(label) => r matches PlatformNames::Targets(names)
                && names.deep_view() == seq![label.target],
            SettingValue::LabelList(labels) => r matches PlatformNames::Targets(names)
                && names.deep_view() == targets_of(labels),
            SettingValue::String(text) => r matches PlatformNames::Texts(names)
                && names.deep_view() == seq![text],
            SettingValue::StringList(texts) => r matches PlatformNames::Texts(names)
                && names.deep_view() == texts,
            SettingValue::Bool(_) => r is Unsupported,
            SettingValue::Int(_) => r is Unsupported,
        },
{
    match value {
        BazelBuildSettingValue::Label(label) => PlatformNames::Targets(one(&label.target)),
        BazelBuildSettingValue::LabelList(labels) => PlatformNames::Targets(label_targets(labels)),
        BazelBuildSettingValue::String(text) => PlatformNames::Texts(one(text)),
        BazelBuildSettingValue::StringList(texts) => PlatformNames::Texts(texts.duplicate()),
        BazelBuildSettingValue::Bool(_) => PlatformNames::Unsupported,
        BazelBuildSettingValue::Int(_) => PlatformNames::Unsupported,
    }
}

/// The texts of a setting that have to be parsed as labels.
pub open spec fn platform_texts(value: SettingValue) -> Seq<Text> {
    match value {
        SettingValue::String(text) => seq![text],
        SettingValue::StringList(texts) => texts,
        _ => seq![],
    }
}

/// What the texts from `i` on were parsed as, behind the labels before; the first that
/// is no label is an error.
pub open spec fn parsed_platforms(
    texts: Seq<Text>,
    parsed: Seq<Result<Text, Text>>,
    i: int,
    done: Seq<Text>,
) -> Result<Seq<Text>, Text>
    decreases texts.len() - i,
{
    if i < 0 || i >= texts.len() {
        Ok(done)
    } else {
        match parsed[i] {
            Err(e) => Err("Parsing Bazel platform label `"@ + texts[i] + "`: "@ + e),
            Ok(label) => parsed_platforms(texts, parsed, i + 1, done.push(label)),
        }
    }
}

/// The platforms of a setting: the targets of its labels, or what its texts were parsed
/// as. Any other value, as it is `shown`, is an error.
pub open spec fn platforms_of(
    value: SettingValue,
    parsed: Seq<Result<Text, Text>>,
    shown: Text,
) -> Result<Seq<Text>, Text> {
    match value {
        SettingValue::Label(label) => Ok(seq![label.target]),
        SettingValue::LabelList(labels) => Ok(targets_of(labels)),
        SettingValue::String(_) => parsed_platforms(platform_texts(value), parsed, 0, seq![]),
        SettingValue::StringList(_) => parsed_platforms(platform_texts(value), parsed, 0, seq![]),
        _ => Err(
            "unsupported value for Bazel build setting `//command_line_option:platforms`: `"@
                + shown + "`"@,
        ),
    }
}

fn take_parsed(texts: &Vec<String>, parsed: &Vec<Result<String, InputError>>) -> (r: Result<
    Vec<String>,
    InputError,
>)
    requires
        parsed@.len() == texts@.len(),
    ensures
        result_view(r) == parsed_platforms(
            texts.deep_view(),
            label_results(parsed@),
            0,
            seq![],
        ),
{
    let ghost t = texts.deep_view();
    let ghost p = label_results(parsed@);
    let ghost whole = parsed_platforms(t, p, 0, seq![]);
    let mut out: Vec<String> = Vec::new();
    assert(out.deep_view() =~= seq![]);
    let mut i: usize = 0;
    while i < texts.len()
        invariant
            t == texts.deep_view(),
            p == label_results(parsed@),
            parsed@.len() == texts@.len(),
            0 <= i <= texts@.len(),
            whole == parsed_platforms(t, p, 0, seq![]),
            whole == parsed_platforms(t, p, i as int, out.deep_view()),
        decreases texts.len() - i,
    {
        let ghost before = out.deep_view();
        assert(t[i as int] == texts@[i as int]@);
        assert(p[i as int] == result_view(parsed@[i as int]));
        match &parsed[i] {
            Err(e) => {
                let mut message = concat3(
                    "Parsing Bazel platform label `",
                    texts[i].as_str(),
                    "`: ",
                );
                message.append(e.message.as_str());
                return Err(InputError { message });
            },
            Ok(label) => {
                out.push(label.clone());
                assert(out.deep_view() =~= before.push(label@));
            },
        }
        i += 1;
    }
    Ok(out)
}

/// The platforms of a setting, given what its texts were parsed as and how a value
/// that names no platform is shown.
pub fn bazel_platform_targets_from_setting(
    value: &BazelBuildSettingValue,
    parsed: &Vec<Result<String, InputError>>,
    shown: &str,
) -> (r: Result<Vec<String>, InputError>)
    requires
        parsed@.len() == platform_texts(value.deep_view()).len(),
    ensures
        result_view(r) == platforms_of(value.deep_view(), label_results(parsed@), shown@),
{
    match bazel_platform_names(value) {
        PlatformNames::Targets(targets) => Ok(targets),
        PlatformNames::Texts(texts) => {
            assert(texts.deep_view().len() == texts@.len());
            take_parsed(&texts, parsed)
        },
        PlatformNames::Unsupported => Err(
            InputError {
                message: concat3(
                    "unsupported value for Bazel build setting `//command_line_option:platforms`: `",
                    shown,
                    "`",
                ),
            },
        ),
    }
}

/// The configuration of a platform: that of the target's `PlatformInfo`, without which
/// the target is no platform.
pub fn bazel_platform_configuration(target: &str, platform: Option<ConfigurationDataData>) -> (r:
    Result<ConfigurationDataData, InputError>)
    ensures
        result_view(r) == (match platform.deep_view() {
            Some(cfg) => Ok::<ConfigurationModel, Text>(cfg),
            None => Err(
                "Expected `"@ + target@
                    + "` to be a `platform()` target, but it had no `PlatformInfo` provider."@,
            ),
        }),
{
    match platform {
        Some(cfg) => Ok(cfg),
        None => Err(
            InputError {
                message: concat3(
                    "Expected `",
                    target,
                    "` to be a `platform()` target, but it had no `PlatformInfo` provider.",
                ),
            },
        ),
    }
}

fn one(text: &String) -> (r: Vec<String>)
    ensures
        r.deep_view() == seq![text@],
{
    let mut out: Vec<String> = Vec::new();
    out.push(text.clone());
    assert(out.deep_view() =~= seq![text@]);
    out
}

/// The platform that counts: the first that is named, or the host's.
pub fn bazel_platform_target(named: &Vec<String>, host: &str) -> (r: String)
    ensures
        r@ == (if named.deep_view().len() == 0 {
            host@
        } else {
            named.deep_view()[0]
        }),
{
    assert(named.deep_view().len() == named@.len());
    if named.len() == 0 {
        host.to_owned()
    } else {
        assert(named.deep_view()[0] == named@[0]@);
        named[0].clone()
    }
}

/// A configuration on a platform: the platform's constraints, its settings with
/// those of the configuration over them, and the platform as the one that
/// counts.
pub open spec fn on_platform(
    cfg: ConfigurationModel,
    platform: ConfigurationModel,
    target: Text,
) -> ConfigurationModel {
    ConfigurationModel {
        constraints: platform.constraints,
        build_settings: put::<String, SettingValue>(
            with_settings(platform.build_settings, cfg.build_settings, 0),
            BAZEL_PLATFORMS_OPTION@,
            SettingValue::LabelList(seq![all_providers(target)]),
        ),
    }
}

/// A configuration on a platform; none where that is what it is.
pub fn apply_bazel_platform_cfg_to_bazel_rule(
    cfg: &ConfigurationDataData,
    platform: &ConfigurationDataData,
    target: &str,
) -> (r: Option<ConfigurationDataData>)
    ensures
        r.deep_view() == (if on_platform(cfg.deep_view(), platform.deep_view(), target@)
            == cfg.deep_view() {
            None
        } else {
            Some(on_platform(cfg.deep_view(), platform.deep_view(), target@))
        }),
{
    let mut build_settings = platform.build_settings.duplicate();
    add_settings(&mut build_settings, &cfg.build_settings);
    let mut labels: Vec<ProvidersLabel> = Vec::new();
    labels.push(ProvidersLabel::default_for(target));
    assert(labels.deep_view() =~= seq![all_providers(target@)]);
    build_settings.insert(
        BAZEL_PLATFORMS_OPTION.to_owned(),
        BazelBuildSettingValue::LabelList(labels),
    );
    let constraints = platform.constraints.duplicate();
    if constraints.entries.same_key(&cfg.constraints.entries) && same_settings(
        &build_settings,
        &cfg.build_settings,
    ) {
        None
    } else {
        Some(ConfigurationDataData { constraints, build_settings })
    }
}

/// A configuration that is put on a platform once more stays as it is.
pub proof fn law_on_platform_again(
    cfg: ConfigurationModel,
    platform: ConfigurationModel,
    target: Text,
)
    requires
        sorted_items::<String, SettingValue>(platform.build_settings),
        sorted_items::<String, SettingValue>(cfg.build_settings),
    ensures
        on_platform(on_platform(cfg, platform, target), platform, target) == on_platform(
            cfg,
            platform,
            target,
        ),
{
    let key = BAZEL_PLATFORMS_OPTION@;
    let value = SettingValue::LabelList(seq![all_providers(target)]);
    let base = platform.build_settings;
    let merged = with_settings(base, cfg.build_settings, 0);
    let once = put::<String, SettingValue>(merged, key, value);
    let again = with_settings(base, once, 0);
    let twice = put::<String, SettingValue>(again, key, value);
    lemma_with_settings_sorted(base, cfg.build_settings, 0);
    law_put_sorted::<String, SettingValue>(merged, key, value);
    lemma_with_settings_sorted(base, once, 0);
    law_put_sorted::<String, SettingValue>(again, key, value);
    assert forall|q: Text| lookup(twice, q) == lookup(once, q) by {
        law_lookup_after_put::<String, SettingValue>(again, key, value, q);
        law_lookup_after_put::<String, SettingValue>(merged, key, value, q);
        lemma_lookup_with_settings(base, once, q);
        lemma_lookup_with_settings(base, cfg.build_settings, q);
    }
    lemma_same_lookups(twice, once);
}

proof fn lemma_with_settings_sorted(settings: Settings, more: Settings, i: int)
    requires
        sorted_items::<String, SettingValue>(settings),
    ensures
        sorted_items::<String, SettingValue>(with_settings(settings, more, i)),
    decreases more.len() - i,
{
    if 0 <= i < more.len() {
        law_put_sorted::<String, SettingValue>(settings, more[i].0, more[i].1);
        lemma_with_settings_sorted(
            put::<String, SettingValue>(settings, more[i].0, more[i].1),
            more,
            i + 1,
        );
    }
}

/// What is looked up after settings were put in: what they give, or what was
/// there.
proof fn lemma_lookup_with_settings(settings: Settings, more: Settings, q: Text)
    requires
        sorted_items::<String, SettingValue>(settings),
        sorted_items::<String, SettingValue>(more),
    ensures
        lookup(with_settings(settings, more, 0), q) == (match lookup(more, q) {
            Some(value) => Some(value),
            None => lookup(settings, q),
        }),
{
    lemma_lookup_with_rest(settings, more, 0, q);
    assert(more.skip(0) =~= more);
}

proof fn lemma_lookup_with_rest(settings: Settings, more: Settings, i: int, q: Text)
    requires
        0 <= i <= more.len(),
        sorted_items::<String, SettingValue>(settings),
        sorted_items::<String, SettingValue>(more),
    ensures
        lookup(with_settings(settings, more, i), q) == (match lookup(more.skip(i), q) {
            Some(value) => Some(value),
            None => lookup(settings, q),
        }),
    decreases more.len() - i,
{
    if i < more.len() {
        let next = put::<String, SettingValue>(settings, more[i].0, more[i].1);
        let rest = more.skip(i);
        law_put_sorted::<String, SettingValue>(settings, more[i].0, more[i].1);
        law_lookup_after_put::<String, SettingValue>(settings, more[i].0, more[i].1, q);
        lemma_lookup_with_rest(next, more, i + 1, q);
        assert(rest.skip(1) =~= more.skip(i + 1));
        assert(rest[0] == more[i]);
        if q == more[i].0 {
            let tail = more.skip(i + 1);
            assert forall|j: int| 0 <= j < tail.len() implies (#[trigger] tail[j]).0 != q by {
                assert(tail[j] == more[i + 1 + j]);
                assert(text_lt(more[i].0, more[i + 1 + j].0));
                lemma_text_lt_irreflexive(q);
            }
            lemma_not_there(tail, q);
        }
    }
}

proof fn lemma_not_there<V>(items: Seq<(Text, V)>, k: Text)
    requires
        forall|i: int| 0 <= i < items.len() ==> (#[trigger] items[i]).0 != k,
    ensures
        lookup(items, k) is None,
    decreases items.len(),
{
    if items.len() > 0 {
        assert(items[0].0 != k);
        let rest = items.skip(1);
        assert forall|i: int| 0 <= i < rest.len() implies (#[trigger] rest[i]).0 != k by {
            assert(rest[i] == items[i + 1]);
        }
        lemma_not_there(rest, k);
    }
}

/// Maps in key order that give the same for every key are the same.
proof fn lemma_same_lookups(a: Settings, b: Settings)
    requires
        sorted_items::<String, SettingValue>(a),
        sorted_items::<String, SettingValue>(b),
        forall|q: Text| lookup(a, q) == lookup(b, q),
    ensures
        a == b,
    decreases a.len(),
{
    if a.len() == 0 {
        if b.len() > 0 {
            assert(lookup(a, b[0].0) == lookup(b, b[0].0));
        }
        assert(a =~= b);
    } else {
        assert(lookup(a, a[0].0) == lookup(b, a[0].0));
        assert(b.len() > 0);
        assert(lookup(a, b[0].0) == lookup(b, b[0].0));
        if a[0].0 != b[0].0 {
            let i = lemma_found_at(b, a[0].0);
            let j = lemma_found_at(a, b[0].0);
            assert(text_lt(b[0].0, b[i].0));
            assert(text_lt(a[0].0, a[j].0));
            lemma_text_lt_transitive(a[0].0, b[0].0, a[0].0);
            lemma_text_lt_irreflexive(a[0].0);
        }
        let x = a.skip(1);
        let y = b.skip(1);
        assert forall|q: Text| lookup(x, q) == lookup(y, q) by {
            assert(lookup(a, q) == lookup(b, q));
            if q == a[0].0 {
                assert forall|i: int| 0 <= i < x.len() implies (#[trigger] x[i]).0 != q by {
                    assert(x[i] == a[i + 1]);
                    assert(text_lt(a[0].0, a[i + 1].0));
                    lemma_text_lt_irreflexive(q);
                }
                assert forall|i: int| 0 <= i < y.len() implies (#[trigger] y[i]).0 != q by {
                    assert(y[i] == b[i + 1]);
                    assert(text_lt(b[0].0, b[i + 1].0));
                    lemma_text_lt_irreflexive(q);
                }
                lemma_not_there(x, q);
                lemma_not_there(y, q);
            }
        }
        lemma_same_lookups(x, y);
        assert(a =~= seq![a[0]] + x);
        assert(b =~= seq![b[0]] + y);
    }
}

proof fn lemma_found_at<V>(items: Seq<(Text, V)>, k: Text) -> (i: int)
    requires
        lookup(items, k) is Some,
    ensures
        0 <= i < items.len(),
        items[i].0 == k,
    decreases items.len(),
{
    if items[0].0 == k {
        0
    } else {
        lemma_found_at(items.skip(1), k) + 1
    }
}

/// On a platform the constraints are the platform's. A setting of the configuration stays,
/// one that only the platform has is added, and the platform is the one that counts.
pub proof fn law_on_platform(
    cfg: ConfigurationModel,
    platform: ConfigurationModel,
    target: Text,
    key: Text,
)
    requires
        sorted_items::<String, SettingValue>(platform.build_settings),
        sorted_items::<String, SettingValue>(cfg.build_settings),
    ensures
        on_platform(cfg, platform, target).constraints == platform.constraints,
        lookup(
            on_platform(cfg, platform, target).build_settings,
            "//command_line_option:platforms"@,
        ) matches Some(SettingValue::LabelList(labels)) && labels.len() == 1 && labels[0].target
            == target && labels[0].providers.len() == 0,
        key != "//command_line_option:platforms"@ ==> {
            let value = lookup(on_platform(cfg, platform, target).build_settings, key);
            &&& lookup(cfg.build_settings, key) is Some ==> value == lookup(
                cfg.build_settings,
                key,
            )
            &&& lookup(cfg.build_settings, key) is None ==> value == lookup(
                platform.build_settings,
                key,
            )
        },
{
    let option = BAZEL_PLATFORMS_OPTION@;
    let value = SettingValue::LabelList(seq![all_providers(target)]);
    let merged = with_settings(platform.build_settings, cfg.build_settings, 0);
    lemma_with_settings_sorted(platform.build_settings, cfg.build_settings, 0);
    law_lookup_after_put::<String, SettingValue>(merged, option, value, key);
    law_lookup_after_put::<String, SettingValue>(merged, option, value, option);
    lemma_lookup_with_settings(platform.build_settings, cfg.build_settings, key);
}

/// A setting of the command line replaces that of the configuration, and every other
/// setting stays.
pub proof fn law_command_line_settings(settings: Settings, more: Settings, key: Text)
    requires
        sorted_items::<String, SettingValue>(settings),
        sorted_items::<String, SettingValue>(more),
    ensures
        lookup(more, key) is Some ==> lookup(with_settings(settings, more, 0), key) == lookup(
            more,
            key,
        ),
        lookup(more, key) is None ==> lookup(with_settings(settings, more, 0), key) == lookup(
            settings,
            key,
        ),
{
    lemma_lookup_with_settings(settings, more, key);
}

/// Of the platforms that are named the first counts, and the host's only where none is
/// named.
pub proof fn law_first_platform(named: Vec<String>, host: &str, platform: String)
    requires
        call_ensures(bazel_platform_target, (&named, host), platform),
    ensures
        named@.len() > 0 ==> platform@ == named@[0]@,
        named@.len() == 0 ==> platform@ == host@,
{
    assert(named.deep_view().len() == named@.len());
    if named@.len() > 0 {
        assert(named.deep_view()[0] == named@[0]@);
    }
}

} // verus!
