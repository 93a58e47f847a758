//! Build settings that the command line and `.bazelrc` files give.

use vstd::prelude::*;
use vstd::string::*;
use crate::attrs::{ProvidersLabel, ProvidersLabelModel};
use crate::bazelrc::setting_text;
use crate::external_data::SameModel;
use crate::module::InputError;
use crate::ordered::{
    Duplicate, KeyMap, OrderedKey, law_lookup_after_put, lookup, put, result_view, sorted_items,
};
use crate::text::{
    Text, concat, concat3, find, join, lemma_find_from, lemma_next_char, lemma_split_at_char, lines,
    next_char, occurs_at, same, split, split_from, split_of, split_once, split_once_of, starts_with,
};

verus! {

/// The value of a build setting.
#[derive(Debug, PartialEq, Eq)]
pub enum BazelBuildSettingValue {
    Bool(bool),
    Int(i64),
    String(String),
    StringList(Vec<String>),
    Label(ProvidersLabel),
    LabelList(Vec<ProvidersLabel>),
}

/// The model of [`BazelBuildSettingValue`].
pub enum SettingValue {
    Bool(bool),
    Int(i64),
    String(Text),
    StringList(Seq<Text>),
    Label(ProvidersLabelModel),
    LabelList(Seq<ProvidersLabelModel>),
}

impl DeepView for BazelBuildSettingValue {
    type V = SettingValue;

    open spec fn deep_view(&self) -> SettingValue {
        match self {
            BazelBuildSettingValue::Bool(b) => SettingValue::Bool(*b),
            BazelBuildSettingValue::String(s) => SettingValue::String(s@),
            BazelBuildSettingValue::StringList(list) => SettingValue::StringList(list.deep_view()),
            BazelBuildSettingValue::Int(n) => SettingValue::Int(*n),
            BazelBuildSettingValue::Label(s) => SettingValue::Label(s.deep_view()),
            BazelBuildSettingValue::LabelList(list) => SettingValue::LabelList(list.deep_view()),
        }
    }
}

impl Duplicate for BazelBuildSettingValue {
    fn duplicate(&self) -> (r: Self) {
        match self {
            BazelBuildSettingValue::Bool(b) => BazelBuildSettingValue::Bool(*b),
            BazelBuildSettingValue::String(s) => BazelBuildSettingValue::String(s.clone()),
            BazelBuildSettingValue::StringList(list) => BazelBuildSettingValue::StringList(
                list.duplicate(),
            ),
            BazelBuildSettingValue::Int(n) => BazelBuildSettingValue::Int(*n),
            BazelBuildSettingValue::Label(s) => BazelBuildSettingValue::Label(s.duplicate()),
            BazelBuildSettingValue::LabelList(list) => BazelBuildSettingValue::LabelList(
                list.duplicate(),
            ),
        }
    }
}

/// Settings by their keys, in order.
pub type Settings = Seq<(Text, SettingValue)>;

/// The lines that are not empty.
pub open spec fn filled_lines(lines: Seq<Text>) -> Seq<Text>
    decreases lines.len(),
{
    if lines.len() == 0 {
        seq![]
    } else if lines.last().len() == 0 {
        filled_lines(lines.drop_last())
    } else {
        filled_lines(lines.drop_last()).push(lines.last())
    }
}

/// The lines of a setting.
pub open spec fn config_lines(value: Option<Text>) -> Seq<Text> {
    match value {
        Some(value) => filled_lines(split(value, '\n')),
        None => seq![],
    }
}

/// The lines of a setting that are not empty.
pub fn bazel_config_lines(value: Option<&str>) -> (r: Vec<String>)
    ensures
        r.deep_view() == config_lines(value.deep_view()),
{
    let mut out: Vec<String> = Vec::new();
    assert(out.deep_view() =~= seq![]);
    match value {
        Some(value) => {
            let all = split_of(value, '\n');
            let ghost model = all.deep_view();
            let mut i: usize = 0;
            while i < all.len()
                invariant
                    model == all.deep_view(),
                    0 <= i <= all@.len(),
                    out.deep_view() == filled_lines(model.take(i as int)),
                decreases all.len() - i,
            {
                let ghost before = out.deep_view();
                proof {
                    let t = model.take(i + 1);
                    assert(t.drop_last() =~= model.take(i as int));
                    assert(t.last() == all@[i as int]@);
                }
                if all[i].as_str().unicode_len() > 0 {
                    out.push(all[i].clone());
                    assert(out.deep_view() =~= before.push(model[i as int]));
                }
                i += 1;
            }
            assert(model.take(i as int) =~= model);
        },
        None => {},
    }
    out
}

/// The settings with one more: a list is appended to one that is there, and any
/// other value replaces what is there.
pub open spec fn with_setting(settings: Settings, key: Text, value: SettingValue) -> Settings {
    put::<String, SettingValue>(
        settings,
        key,
        match (value, lookup(settings, key)) {
            (SettingValue::StringList(more), Some(SettingValue::StringList(list))) => {
                SettingValue::StringList(list + more)
            },
            _ => value,
        },
    )
}

/// Adds a setting.
pub fn push_bazel_build_setting(
    settings: &mut KeyMap<String, BazelBuildSettingValue>,
    key: String,
    value: BazelBuildSettingValue,
)
    ensures
        final(settings).deep_view() == with_setting(
            old(settings).deep_view(),
            key@,
            value.deep_view(),
        ),
{
    let joined = match (value, settings.get(&key)) {
        (
            BazelBuildSettingValue::StringList(more),
            Some(BazelBuildSettingValue::StringList(list)),
        ) => {
            let mut all = list.duplicate();
            let mut more = more;
            let ghost a = all.deep_view();
            let ghost b = more.deep_view();
            all.append(&mut more);
            assert(all.deep_view() =~= a + b);
            BazelBuildSettingValue::StringList(all)
        },
        (value, _) => value,
    };
    settings.insert(key, joined);
}

/// An entry's kind, key and value, with tabs between them.
pub open spec fn entry_parts(entry: Text) -> Option<(Text, Text, Text)> {
    match split_once(entry, "\t"@) {
        None => None,
        Some((kind, rest)) => match split_once(rest, "\t"@) {
            None => None,
            Some((key, value)) => Some((kind, key, value)),
        },
    }
}

/// The value of a setting of that kind.
pub open spec fn setting_value(kind: Text, value: Text) -> Option<SettingValue> {
    if kind == "bool"@ {
        Some(SettingValue::Bool(value == "true"@ || value == "True"@ || value == "1"@))
    } else if kind == "list"@ {
        Some(SettingValue::StringList(seq![value]))
    } else if kind == "string"@ {
        Some(SettingValue::String(value))
    } else {
        None
    }
}

/// The key is an option of the command line rather than a label.
pub open spec fn is_option_key(key: Text) -> bool {
    occurs_at(key, "//command_line_option:"@, 0)
}

/// The key and the value of an entry; its key as a label where it is one.
pub open spec fn parsed_entry(entry: Text, label: Result<Text, Text>) -> Result<
    (Text, SettingValue),
    Text,
> {
    match entry_parts(entry) {
        None => Err("Malformed Bazel command-line build setting entry `"@ + entry + "`"@),
        Some((kind, raw_key, value)) => {
            let key = if is_option_key(raw_key) {
                Ok(raw_key)
            } else {
                match label {
                    Ok(label) => Ok(label),
                    Err(e) => Err(
                        "Parsing Bazel command-line build setting `"@ + raw_key + "`: "@ + e,
                    ),
                }
            };
            match key {
                Err(e) => Err(e),
                Ok(key) => match setting_value(kind, value) {
                    None => Err(
                        "Unsupported Bazel command-line build setting entry kind `"@ + kind + "`"@,
                    ),
                    Some(value) => Ok((key, value)),
                },
            }
        },
    }
}

/// The settings of the entries from `i` on, with those before.
pub open spec fn settings_from(
    entries: Seq<Text>,
    labels: Seq<Result<Text, Text>>,
    i: int,
    done: Settings,
) -> Result<Settings, Text>
    decreases entries.len() - i,
{
    if i < 0 || i >= entries.len() {
        Ok(done)
    } else {
        match parsed_entry(entries[i], labels[i]) {
            Err(e) => Err(e),
            Ok((key, value)) => settings_from(
                entries,
                labels,
                i + 1,
                with_setting(done, key, value),
            ),
        }
    }
}

/// The keys that have to be read as labels, one for each entry; none where an
/// entry has no such key.
pub open spec fn label_keys(entries: Seq<Text>) -> Seq<Option<Text>> {
    Seq::new(
        entries.len(),
        |i: int|
            match entry_parts(entries[i]) {
                Some((kind, key, value)) => if is_option_key(key) {
                    None
                } else {
                    Some(key)
                },
                None => None,
            },
    )
}

fn split_entry(entry: &str) -> (r: Option<(&str, &str, &str)>)
    ensures
        match r {
            Some((kind, key, value)) => entry_parts(entry@) == Some((kind@, key@, value@)),
            None => entry_parts(entry@) is None,
        },
{
    match split_once_of(entry, "\t") {
        None => None,
        Some((kind, rest)) => match split_once_of(rest, "\t") {
            None => None,
            Some((key, value)) => Some((kind, key, value)),
        },
    }
}

/// The keys that have to be read as labels, one for each entry.
pub fn bazel_build_setting_label_keys(entries: &Vec<String>) -> (r: Vec<Option<String>>)
    ensures
        r.deep_view() == label_keys(entries.deep_view()),
{
    let ghost all = label_keys(entries.deep_view());
    let mut out: Vec<Option<String>> = Vec::new();
    let mut i: usize = 0;
    while i < entries.len()
        invariant
            all == label_keys(entries.deep_view()),
            0 <= i <= entries@.len(),
            out.deep_view() =~= all.take(i as int),
        decreases entries.len() - i,
    {
        let ghost before = out.deep_view();
        assert(entries.deep_view()[i as int] == entries@[i as int]@);
        let key = match split_entry(entries[i].as_str()) {
            Some((_, key, _)) => if starts_with(key, "//command_line_option:") {
                None
            } else {
                Some(key.to_owned())
            },
            None => None,
        };
        let ghost k = key.deep_view();
        out.push(key);
        assert(k == all[i as int]);
        assert(out.deep_view() =~= before.push(k));
        i += 1;
    }
    assert(all.take(i as int) =~= all);
    out
}

fn parse_entry(entry: &str, label: &Result<String, InputError>) -> (r: Result<
    (String, BazelBuildSettingValue),
    InputError,
>)
    ensures
        result_view(r) == parsed_entry(entry@, result_view(*label)),
{
    let (kind, raw_key, raw_value) = match split_entry(entry) {
        Some(parts) => parts,
        None => {
            return Err(
                InputError {
                    message: concat3(
                        "Malformed Bazel command-line build setting entry `",
                        entry,
                        "`",
                    ),
                },
            );
        },
    };
    let key = if starts_with(raw_key, "//command_line_option:") {
        raw_key.to_owned()
    } else {
        match label {
            Ok(label) => label.clone(),
            Err(e) => {
                let mut message = concat3(
                    "Parsing Bazel command-line build setting `",
                    raw_key,
                    "`: ",
                );
                message.append(e.message.as_str());
                return Err(InputError { message });
            },
        }
    };
    let value = if same(kind, "bool") {
        BazelBuildSettingValue::Bool(
            same(raw_value, "true") || same(raw_value, "True") || same(raw_value, "1"),
        )
    } else if same(kind, "list") {
        let mut list: Vec<String> = Vec::new();
        list.push(raw_value.to_owned());
        assert(list.deep_view() =~= seq![raw_value@]);
        BazelBuildSettingValue::StringList(list)
    } else if same(kind, "string") {
        BazelBuildSettingValue::String(raw_value.to_owned())
    } else {
        return Err(
            InputError {
                message: concat3(
                    "Unsupported Bazel command-line build setting entry kind `",
                    kind,
                    "`",
                ),
            },
        );
    };
    Ok((key, value))
}

/// The labels that keys were read as.
pub open spec fn label_results(labels: Seq<Result<String, InputError>>) -> Seq<Result<Text, Text>> {
    Seq::new(labels.len(), |i: int| result_view(labels[i]))
}

/// The settings that the entries give. The labels are what the keys of the
/// entries were read as, one for each entry.
pub fn bazel_command_line_build_settings(
    entries: &Vec<String>,
    labels: &Vec<Result<String, InputError>>,
) -> (r: Result<KeyMap<String, BazelBuildSettingValue>, InputError>)
    requires
        labels@.len() == entries@.len(),
    ensures
        result_view(r) == settings_from(
            entries.deep_view(),
            label_results(labels@),
            0,
            seq![],
        ),
{
    let ghost model = entries.deep_view();
    let ghost read = label_results(labels@);
    let ghost whole = settings_from(model, read, 0, seq![]);
    let mut settings: KeyMap<String, BazelBuildSettingValue> = KeyMap::new();
    assert(settings.deep_view() =~= seq![]);
    let mut i: usize = 0;
    while i < entries.len()
        invariant
            labels@.len() == entries@.len(),
            model == entries.deep_view(),
            read == label_results(labels@),
            0 <= i <= entries@.len(),
            whole == settings_from(model, read, 0, seq![]),
            whole == settings_from(model, read, i as int, settings.deep_view()),
        decreases entries.len() - i,
    {
        assert(model[i as int] == entries@[i as int]@);
        assert(read[i as int] == result_view(labels@[i as int]));
        match parse_entry(entries[i].as_str(), &labels[i]) {
            Ok((key, value)) => {
                push_bazel_build_setting(&mut settings, key, value);
            },
            Err(e) => {
                return Err(e);
            },
        }
        i += 1;
    }
    Ok(settings)
}

/// The settings with others put in from `i` on.
pub open spec fn with_settings(settings: Settings, more: Settings, i: int) -> Settings
    decreases more.len() - i,
{
    if i < 0 || i >= more.len() {
        settings
    } else {
        with_settings(put::<String, SettingValue>(settings, more[i].0, more[i].1), more, i + 1)
    }
}

fn same_value(a: &BazelBuildSettingValue, b: &BazelBuildSettingValue) -> (r: bool)
    ensures
        r == (a.deep_view() == b.deep_view()),
{
    match (a, b) {
        (BazelBuildSettingValue::Bool(x), BazelBuildSettingValue::Bool(y)) => x == y,
        (BazelBuildSettingValue::String(x), BazelBuildSettingValue::String(y)) => x.same_key(y),
        (BazelBuildSettingValue::StringList(x), BazelBuildSettingValue::StringList(y)) => {
            x.same_key(y)
        },
        (BazelBuildSettingValue::Int(x), BazelBuildSettingValue::Int(y)) => x == y,
        (BazelBuildSettingValue::Label(x), BazelBuildSettingValue::Label(y)) => x.same_model(y),
        (BazelBuildSettingValue::LabelList(x), BazelBuildSettingValue::LabelList(y)) => {
            x.same_model(y)
        },
        _ => false,
    }
}

/// Whether the settings are the same.
pub fn same_settings(
    a: &KeyMap<String, BazelBuildSettingValue>,
    b: &KeyMap<String, BazelBuildSettingValue>,
) -> (r: bool)
    ensures
        r == (a.deep_view() == b.deep_view()),
{
    assert(a.deep_view().len() == a.entries@.len());
    assert(b.deep_view().len() == b.entries@.len());
    if a.entries.len() != b.entries.len() {
        return false;
    }
    let mut i: usize = 0;
    while i < a.entries.len()
        invariant
            a.entries@.len() == b.entries@.len(),
            0 <= i <= a.entries@.len(),
            forall|j: int| 0 <= j < i ==> #[trigger] a.deep_view()[j] == b.deep_view()[j],
        decreases a.entries.len() - i,
    {
        assert(a.deep_view()[i as int] == a.entries@[i as int].deep_view());
        assert(b.deep_view()[i as int] == b.entries@[i as int].deep_view());
        if !a.entries[i].0.same_key(&b.entries[i].0) || !same_value(
            &a.entries[i].1,
            &b.entries[i].1,
        ) {
            return false;
        }
        i += 1;
    }
    assert(a.deep_view() =~= b.deep_view());
    true
}

/// Puts settings over others.
pub fn add_settings(
    all: &mut KeyMap<String, BazelBuildSettingValue>,
    settings: &KeyMap<String, BazelBuildSettingValue>,
)
    ensures
        final(all).deep_view() == with_settings(old(all).deep_view(), settings.deep_view(), 0),
{
    let ghost first = all.deep_view();
    let ghost more = settings.deep_view();
    let mut i: usize = 0;
    while i < settings.entries.len()
        invariant
            more == settings.deep_view(),
            0 <= i <= settings.entries@.len(),
            with_settings(first, more, 0) == with_settings(all.deep_view(), more, i as int),
        decreases settings.entries.len() - i,
    {
        assert(more[i as int] == settings.entries@[i as int].deep_view());
        all.insert(settings.entries[i].0.clone(), settings.entries[i].1.duplicate());
        i += 1;
    }
}

/// A configuration with the settings of the command line: its new label and its
/// settings. None where it stays as it is.
pub fn apply_bazel_command_line_build_settings(
    label: &str,
    build_settings: &KeyMap<String, BazelBuildSettingValue>,
    settings: &KeyMap<String, BazelBuildSettingValue>,
) -> (r: Option<(String, KeyMap<String, BazelBuildSettingValue>)>)
    ensures
        r.deep_view() == ({
            let all = with_settings(build_settings.deep_view(), settings.deep_view(), 0);
            if all == build_settings.deep_view() {
                None
            } else {
                Some((label@ + "-bazelrc"@, all))
            }
        }),
{
    let mut all = build_settings.duplicate();
    add_settings(&mut all, settings);
    if same_settings(&all, build_settings) {
        None
    } else {
        Some((concat(label, "-bazelrc"), all))
    }
}

/// An entry reads back as the kind, the key and the value that it was written
/// with; the value may hold tabs, the other two may not.
pub proof fn law_entry_round_trip(kind: Text, key: Text, value: Text)
    requires
        !kind.contains('\t'),
        !key.contains('\t'),
    ensures
        entry_parts(setting_text(kind, key, value)) == Some((kind, key, value)),
{
    reveal_strlit("\t");
    assert("\t"@ =~= seq!['\t']);
    let rest = key + "\t"@ + value;
    assert(setting_text(kind, key, value) =~= kind + "\t"@ + rest);
    lemma_split_once_at(kind, rest);
    lemma_split_once_at(key, value);
}

proof fn lemma_split_once_at(a: Text, b: Text)
    requires
        !a.contains('\t'),
    ensures
        split_once(a + "\t"@ + b, "\t"@) == Some((a, b)),
{
    reveal_strlit("\t");
    let tab = "\t"@;
    assert(tab =~= seq!['\t']);
    let s = a + tab + b;
    lemma_find_from(s, tab, 0);
    assert(occurs_at(s, tab, a.len() as int)) by {
        assert(s.subrange(a.len() as int, (a.len() + tab.len()) as int) =~= tab);
    }
    assert forall|j: int| 0 <= j < a.len() implies !#[trigger] occurs_at(s, tab, j) by {
        if occurs_at(s, tab, j) {
            assert(s.subrange(j, j + tab.len())[0] == '\t');
            assert(a[j] == '\t');
            assert(a.contains('\t'));
        }
    }
    let i = find(s, tab)->0;
    assert(i == a.len());
    assert(s.take(i) =~= a);
    assert(s.skip(i + tab.len()) =~= b);
    assert(s.subrange(0, i) =~= a);
    assert(s.subrange(i + tab.len(), s.len() as int) =~= b);
}

/// Lines that are not empty and hold no line break read back as they were
/// joined.
pub proof fn law_config_lines_round_trip(entries: Seq<Text>)
    requires
        forall|i: int|
            0 <= i < entries.len() ==> (#[trigger] entries[i]).len() > 0 && !entries[i].contains(
                '\n',
            ),
    ensures
        config_lines(Some(join(entries, "\n"@))) == entries,
{
    let text = join(entries, "\n"@);
    if entries.len() == 0 {
        lemma_next_char(text, '\n', 0);
        let all = split(text, '\n');
        assert(all =~= seq![text.subrange(0, 0)]);
        reveal_with_fuel(filled_lines, 2);
        assert(all.drop_last() =~= seq![]);
        assert(filled_lines(all) =~= entries);
    } else {
        lemma_split_joined(entries);
        lemma_filled(entries);
    }
}

/// What is joined by line breaks is split there again.
proof fn lemma_split_joined(entries: Seq<Text>)
    requires
        entries.len() > 0,
        forall|i: int| 0 <= i < entries.len() ==> !(#[trigger] entries[i]).contains('\n'),
    ensures
        split(join(entries, "\n"@), '\n') == entries,
    decreases entries.len(),
{
    reveal_strlit("\n");
    assert("\n"@ =~= seq!['\n']);
    if entries.len() == 1 {
        let text = entries[0];
        lemma_next_char(text, '\n', 0);
        if next_char(text, '\n', 0) < text.len() {
            assert(text.contains('\n'));
        }
        assert(text.subrange(0, text.len() as int) =~= text);
        assert(split(text, '\n') =~= entries);
    } else {
        let rest = entries.drop_last();
        let last = entries[entries.len() - 1];
        assert forall|i: int| 0 <= i < rest.len() implies !(#[trigger] rest[i]).contains('\n') by {
            assert(rest[i] == entries[i]);
        }
        lemma_split_joined(rest);
        lemma_split_push(join(rest, "\n"@), last, 0);
        assert(rest.push(last) =~= entries);
    }
}

proof fn lemma_split_push(a: Text, b: Text, i: int)
    requires
        0 <= i <= a.len(),
        !b.contains('\n'),
    ensures
        split_from(a + seq!['\n'] + b, '\n', i) == split_from(a, '\n', i).push(b),
    decreases a.len() - i,
{
    let s = a + seq!['\n'] + b;
    let e = next_char(a, '\n', i);
    let f = next_char(s, '\n', i);
    lemma_next_char(a, '\n', i);
    lemma_next_char(s, '\n', i);
    assert(s[a.len() as int] == '\n');
    if e < a.len() {
        assert(s[e] == '\n');
        assert(f == e) by {
            if f < e {
                assert(s[f] == a[f]);
            }
        }
        lemma_split_push(a, b, e + 1);
        assert(s.subrange(i, e) =~= a.subrange(i, e));
        assert(split_from(s, '\n', i) =~= split_from(a, '\n', i).push(b));
    } else {
        assert(f == a.len()) by {
            if f < a.len() {
                assert(s[f] == a[f]);
            }
        }
        let n = (a.len() + 1) as int;
        let g = next_char(s, '\n', n);
        lemma_next_char(s, '\n', n);
        if g < s.len() {
            assert(s[g] == b[g - n]);
            assert(b.contains('\n'));
        }
        assert(s.subrange(i, f) =~= a.subrange(i, a.len() as int));
        assert(s.subrange(n, s.len() as int) =~= b);
        assert(split_from(s, '\n', n) =~= seq![b]);
        assert(split_from(a, '\n', i) =~= seq![a.subrange(i, a.len() as int)]);
        assert(split_from(s, '\n', i) =~= split_from(a, '\n', i).push(b));
    }
}

proof fn lemma_filled(lines: Seq<Text>)
    requires
        forall|i: int| 0 <= i < lines.len() ==> (#[trigger] lines[i]).len() > 0,
    ensures
        filled_lines(lines) == lines,
    decreases lines.len(),
{
    if lines.len() > 0 {
        assert(lines[lines.len() - 1].len() > 0);
        assert forall|i: int| 0 <= i < lines.drop_last().len() implies (
        #[trigger] lines.drop_last()[i]).len() > 0 by {
            assert(lines[i].len() > 0);
        }
        lemma_filled(lines.drop_last());
        assert(lines.drop_last().push(lines.last()) =~= lines);
    } else {
        assert(filled_lines(lines) =~= lines);
    }
}

/// A list that is set again grows at its end, any other value takes the place of the one
/// before, and no other setting changes.
pub proof fn law_setting_again(settings: Settings, key: Text, value: SettingValue, q: Text)
    requires
        sorted_items::<String, SettingValue>(settings),
    ensures
        q != key ==> lookup(with_setting(settings, key, value), q) == lookup(settings, q),
        !(value is StringList) ==> lookup(with_setting(settings, key, value), key) == Some(value),
        value matches SettingValue::StringList(more) ==> {
            let found = lookup(with_setting(settings, key, value), key);
            &&& lookup(settings, key) is None ==> found == Some(value)
            &&& lookup(settings, key) matches Some(SettingValue::StringList(list)) ==> found
                == Some(SettingValue::StringList(list + more))
        },
{
    let joined = match (value, lookup(settings, key)) {
        (SettingValue::StringList(more), Some(SettingValue::StringList(list))) => {
            SettingValue::StringList(list + more)
        },
        _ => value,
    };
    law_lookup_after_put::<String, SettingValue>(settings, key, joined, q);
    law_lookup_after_put::<String, SettingValue>(settings, key, joined, key);
}

/// An entry of a switch is on for `true`, `True` and `1` and off for anything else; one of
/// a list is a list of its one value; and one of a text is the text.
pub proof fn law_entry_values(key: Text, label: Text, value: Text)
    requires
        !key.contains('\t'),
    ensures
        ({
            let name = if occurs_at(key, "//command_line_option:"@, 0) {
                key
            } else {
                label
            };
            &&& parsed_entry("bool\t"@ + key + "\t"@ + value, Ok(label)) == Ok::<
                (Text, SettingValue),
                Text,
            >(
                (name, SettingValue::Bool(value == "true"@ || value == "True"@ || value == "1"@)),
            )
            &&& parsed_entry("list\t"@ + key + "\t"@ + value, Ok(label)) == Ok::<
                (Text, SettingValue),
                Text,
            >((name, SettingValue::StringList(seq![value])))
            &&& parsed_entry("string\t"@ + key + "\t"@ + value, Ok(label)) == Ok::<
                (Text, SettingValue),
                Text,
            >((name, SettingValue::String(value)))
        }),
{
    reveal_strlit("bool\t");
    reveal_strlit("list\t");
    reveal_strlit("string\t");
    reveal_strlit("bool");
    reveal_strlit("list");
    reveal_strlit("string");
    reveal_strlit("\t");
    let tab = seq!['\t'];
    assert("\t"@ =~= tab);
    let rest = key + tab + value;
    lemma_split_at_char(key, '\t', value);
    assert("bool\t"@ + key + "\t"@ + value =~= "bool"@ + tab + rest);
    assert("list\t"@ + key + "\t"@ + value =~= "list"@ + tab + rest);
    assert("string\t"@ + key + "\t"@ + value =~= "string"@ + tab + rest);
    assert(!"bool"@.contains('\t') && !"list"@.contains('\t') && !"string"@.contains('\t'));
    lemma_split_at_char("bool"@, '\t', rest);
    lemma_split_at_char("list"@, '\t', rest);
    lemma_split_at_char("string"@, '\t', rest);
    assert("bool"@[0] == 'b' && "list"@[0] == 'l' && "string"@[0] == 's');
}

} // verus!
