//! Options from `.bazelrc` files.

use vstd::prelude::*;
use vstd::string::*;
use crate::compat::{empty_bazelrc_options, no_options};
use crate::ordered::{
    Duplicate, KeySet, law_set_put_contains, law_set_put_sorted, lemma_missing,
    lemma_text_lt_irreflexive, lemma_text_lt_transitive, missing, set_put, sorted_set, text_lt,
    within,
};
use crate::resolved::{BazelCompatBazelrcOptions, BazelCompatBazelrcOptionsModel};
use crate::text::{
    Text, char_is_whitespace, chars_of, concat, concat3, is_whitespace, law_split,
    lemma_split_at_char, lemma_strip_put_prefix, occurs_at, same, split, split_of, split_once,
    split_once_of, starts_with, strip_prefix, strip_prefix_of, text_of, trim, trim_of,
};

verus! {

/// A line of options: the command that it is for, and its arguments.
pub struct BazelrcRecord {
    pub command: String,
    pub args: Vec<String>,
}

/// The model of [`BazelrcRecord`].
pub struct BazelrcRecordModel {
    pub command: Text,
    pub args: Seq<Text>,
}

impl DeepView for BazelrcRecord {
    type V = BazelrcRecordModel;

    open spec fn deep_view(&self) -> BazelrcRecordModel {
        BazelrcRecordModel { command: self.command@, args: self.args.deep_view() }
    }
}

/// Where a scan of a line stands: the words behind it, the word that it is in,
/// the quote that it is in, and whether the next character is taken as it is.
pub struct Words {
    pub words: Seq<Text>,
    pub word: Text,
    pub quote: Option<char>,
    pub escaped: bool,
}

/// The words with the last one.
pub open spec fn with_word(words: Seq<Text>, word: Text) -> Seq<Text> {
    if word.len() == 0 {
        words
    } else {
        words.push(word)
    }
}

/// The scan after a character other than an unquoted `#`.
pub open spec fn word_step(w: Words, c: char) -> Words {
    if w.escaped {
        Words { word: w.word.push(c), escaped: false, ..w }
    } else if c == '\\' {
        Words { escaped: true, ..w }
    } else if w.quote == Some(c) {
        Words { quote: None, ..w }
    } else if w.quote is Some {
        Words { word: w.word.push(c), ..w }
    } else if c == '\'' || c == '"' {
        Words { quote: Some(c), ..w }
    } else if is_whitespace(c) {
        Words { words: with_word(w.words, w.word), word: seq![], ..w }
    } else {
        Words { word: w.word.push(c), ..w }
    }
}

/// The words of a line from `i` on: whitespace parts them, quotes and
/// backslashes take what they protect as it is, and a `#` ends the line.
pub open spec fn words_from(line: Text, i: int, w: Words) -> Seq<Text>
    decreases line.len() - i,
{
    if i < 0 || i >= line.len() || (line[i] == '#' && !w.escaped && w.quote is None) {
        with_word(w.words, w.word)
    } else {
        words_from(line, i + 1, word_step(w, line[i]))
    }
}

/// The words of a line.
pub open spec fn words(line: Text) -> Seq<Text> {
    words_from(line, 0, Words { words: seq![], word: seq![], quote: None, escaped: false })
}

/// The words of a line.
pub fn bazelrc_tokenize(line: &str) -> (r: Vec<String>)
    ensures
        r.deep_view() == words(line@),
{
    let chars = chars_of(line);
    let mut out: Vec<String> = Vec::new();
    let mut word: Vec<char> = Vec::new();
    let mut quote: Option<char> = None;
    let mut escaped = false;
    let mut i: usize = 0;
    let ghost mut state = Words { words: seq![], word: seq![], quote: None, escaped: false };
    assert(out.deep_view() =~= seq![]);
    while i < chars.len()
        invariant
            chars@ == line@,
            0 <= i <= chars@.len(),
            state == (Words { words: out.deep_view(), word: word@, quote, escaped }),
            words(line@) == words_from(line@, i as int, state),
        ensures
            words(line@) == with_word(out.deep_view(), word@),
        decreases chars.len() - i,
    {
        let c = chars[i];
        let ghost before = out.deep_view();
        let ghost after = word_step(state, c);
        if escaped {
            word.push(c);
            escaped = false;
        } else if c == '\\' {
            escaped = true;
        } else if quote.is_some() {
            if quote == Some(c) {
                quote = None;
            } else {
                word.push(c);
            }
        } else if c == '#' {
            break;
        } else if c == '\'' || c == '"' {
            quote = Some(c);
        } else if char_is_whitespace(c) {
            if word.len() > 0 {
                out.push(text_of(&word));
                assert(out.deep_view() =~= before.push(word@));
                word = Vec::new();
            }
            assert(word@ =~= seq![]);
        } else {
            word.push(c);
        }
        proof {
            state = Words { words: out.deep_view(), word: word@, quote, escaped };
        }
        assert(state == after);
        i += 1;
    }
    if word.len() > 0 {
        let ghost before = out.deep_view();
        out.push(text_of(&word));
        assert(out.deep_view() =~= before.push(word@));
    }
    out
}

/// A command and the configuration that it is for.
pub open spec fn command_parts(command: Text) -> (Text, Text) {
    match split_once(command, ":"@) {
        Some(parts) => parts,
        None => (command, seq![]),
    }
}

/// A command for every build.
pub open spec fn build_command(command: Text) -> bool {
    command == "common"@ || command == "build"@
}

/// The record counts for a build with the active configurations.
pub open spec fn record_applies(record: BazelrcRecordModel, active: Seq<Text>) -> bool {
    let (command, config) = command_parts(record.command);
    build_command(command) && (config.len() == 0 || active.contains(config))
}

fn split_command(command: &str) -> (r: (&str, &str))
    ensures
        (r.0@, r.1@) == command_parts(command@),
{
    match split_once_of(command, ":") {
        Some(parts) => parts,
        None => {
            proof {
                reveal_strlit("");
            }
            assert(""@ =~= seq![]);
            (command, "")
        },
    }
}

fn is_build_command(command: &str) -> (r: bool)
    ensures
        r == build_command(command@),
{
    same(command, "common") || same(command, "build")
}

/// Whether the record counts for a build with the active configurations.
pub fn bazelrc_record_applies(record: &BazelrcRecord, active_configs: &KeySet<String>) -> (r: bool)
    ensures
        r == record_applies(record.deep_view(), active_configs.deep_view()),
{
    let (command, config) = split_command(record.command.as_str());
    if !is_build_command(command) {
        return false;
    }
    if config.unicode_len() == 0 {
        return true;
    }
    active_configs.contains(&config.to_owned())
}

/// The value of an option at `i`, in the same argument or in the next one, and
/// the argument that the scan is at then.
pub open spec fn option_value(args: Seq<Text>, i: int, name: Text) -> (Option<Text>, int) {
    if strip_prefix(args[i], name + "="@) is Some {
        (strip_prefix(args[i], name + "="@), i)
    } else if args[i] == name {
        if i + 1 < args.len() {
            (Some(args[i + 1]), i + 1)
        } else {
            (None, i + 1)
        }
    } else {
        (None, i)
    }
}

/// The value of an option at the index, which moves to the argument that holds it.
pub fn bazelrc_arg_value(args: &Vec<String>, index: &mut usize, name: &str) -> (r: Option<String>)
    requires
        *old(index) < args@.len(),
    ensures
        option_value(args.deep_view(), *old(index) as int, name@) == (
            r.deep_view(),
            *final(index) as int,
        ),
        *old(index) <= *final(index) <= *old(index) + 1,
        r is Some ==> *final(index) < args@.len(),
{
    let i: usize = *index;
    let len: usize = args.len();
    let arg = args[i].as_str();
    assert(args.deep_view()[i as int] == arg@);
    let prefix = concat(name, "=");
    match strip_prefix_of(arg, prefix.as_str()) {
        Some(value) => {
            return Some(value.to_owned());
        },
        None => {},
    }
    if same(arg, name) {
        *index = i + 1;
        if i + 1 < len {
            assert(args.deep_view()[i + 1] == args@[i + 1]@);
            return Some(args[i + 1].clone());
        }
        return None;
    }
    None
}

/// A build setting as one text.
pub open spec fn setting_text(kind: Text, key: Text, value: Text) -> Text {
    kind + "\t"@ + key + "\t"@ + value
}

/// A build setting as one text.
pub fn bazelrc_command_line_build_setting_entry(kind: &str, key: &str, value: &str) -> (r: String)
    ensures
        r@ == setting_text(kind@, key@, value@),
{
    concat3(concat3(kind, "\t", key).as_str(), "\t", value)
}

/// An option whose value is a text.
pub open spec fn string_option(name: Text) -> bool {
    name == "cpu"@ || name == "host_cpu"@ || name == "java_language_version"@ || name
        == "tool_java_language_version"@ || name == "java_runtime_version"@ || name
        == "tool_java_runtime_version"@ || name == "experimental_one_version_enforcement"@
}

/// An option that may come more than once.
pub open spec fn list_option(name: Text) -> bool {
    name == "javacopt"@ || name == "host_javacopt"@ || name == "platforms"@
}

/// An option that has several values in one argument.
pub open spec fn comma_option(name: Text) -> bool {
    name == "platforms"@
}

fn bazelrc_native_command_line_string_option(name: &str) -> (r: bool)
    ensures
        r == string_option(name@),
{
    same(name, "cpu") || same(name, "host_cpu") || same(name, "java_language_version") || same(
        name,
        "tool_java_language_version",
    ) || same(name, "java_runtime_version") || same(name, "tool_java_runtime_version") || same(
        name,
        "experimental_one_version_enforcement",
    )
}

fn bazelrc_native_command_line_list_option(name: &str) -> (r: bool)
    ensures
        r == list_option(name@),
{
    same(name, "javacopt") || same(name, "host_javacopt") || same(name, "platforms")
}

fn bazelrc_native_command_line_comma_separated_list_option(name: &str) -> (r: bool)
    ensures
        r == comma_option(name@),
{
    same(name, "platforms")
}

/// A setting for each part that is not blank.
pub open spec fn part_settings(key: Text, parts: Seq<Text>) -> Seq<Text>
    decreases parts.len(),
{
    if parts.len() == 0 {
        seq![]
    } else if trim(parts.last()).len() == 0 {
        part_settings(key, parts.drop_last())
    } else {
        part_settings(key, parts.drop_last()).push(
            setting_text("list"@, key, trim(parts.last())),
        )
    }
}

/// The settings of an option that may come more than once.
pub open spec fn list_settings(name: Text, key: Text, value: Text) -> Seq<Text> {
    if comma_option(name) {
        part_settings(key, split(value, ','))
    } else {
        seq![setting_text("list"@, key, value)]
    }
}

/// The settings of an option that may come more than once.
pub fn bazelrc_command_line_list_build_setting_entries(
    name: &str,
    key: &str,
    value: &str,
) -> (r: Vec<String>)
    ensures
        r.deep_view() == list_settings(name@, key@, value@),
{
    let mut out: Vec<String> = Vec::new();
    if !bazelrc_native_command_line_comma_separated_list_option(name) {
        out.push(bazelrc_command_line_build_setting_entry("list", key, value));
        assert(out.deep_view() =~= list_settings(name@, key@, value@));
        return out;
    }
    let parts = split_of(value, ',');
    let ghost model = parts.deep_view();
    let mut i: usize = 0;
    assert(out.deep_view() =~= seq![]);
    while i < parts.len()
        invariant
            model == parts.deep_view(),
            0 <= i <= parts@.len(),
            out.deep_view() == part_settings(key@, model.take(i as int)),
        decreases parts.len() - i,
    {
        let ghost before = out.deep_view();
        proof {
            let t = model.take(i + 1);
            assert(t.drop_last() =~= model.take(i as int));
            assert(t.last() == parts@[i as int]@);
        }
        let part = trim_of(parts[i].as_str());
        if part.unicode_len() > 0 {
            out.push(bazelrc_command_line_build_setting_entry("list", key, part));
            assert(out.deep_view() =~= before.push(setting_text("list"@, key@, part@)));
        }
        i += 1;
    }
    assert(model.take(i as int) =~= model);
    out
}

/// The text of a label.
pub open spec fn label_key(value: Text) -> bool {
    occurs_at(value, "@"@, 0) || occurs_at(value, "//"@, 0) || occurs_at(value, ":"@, 0)
}

fn bazelrc_label_build_setting_key(value: &str) -> (r: bool)
    ensures
        r == label_key(value@),
{
    starts_with(value, "@") || starts_with(value, "//") || starts_with(value, ":")
}

/// A text and what stands behind its first `=`.
pub open spec fn key_and_value(option: Text) -> (Text, Option<Text>) {
    match split_once(option, "="@) {
        Some((key, value)) => (key, Some(value)),
        None => (option, None),
    }
}

/// The setting of a label.
pub open spec fn label_setting(key: Text, value: Option<Text>, negated: bool) -> Text {
    match value {
        Some(value) => if value == "true"@ || value == "True"@ || value == "1"@ {
            setting_text("bool"@, key, "true"@)
        } else if value == "false"@ || value == "False"@ || value == "0"@ {
            setting_text("bool"@, key, "false"@)
        } else {
            setting_text("string"@, key, value)
        },
        None => setting_text("bool"@, key, if negated {
            "false"@
        } else {
            "true"@
        }),
    }
}

/// The settings of a native option.
pub open spec fn native_settings(name: Text, value: Text) -> Seq<Text> {
    let key = "//command_line_option:"@ + name;
    if list_option(name) {
        list_settings(name, key, value)
    } else {
        seq![setting_text("string"@, key, value)]
    }
}

/// The settings of the option at `i`, and the argument that the scan is at then.
pub open spec fn build_setting(args: Seq<Text>, i: int) -> (Option<Seq<Text>>, int) {
    match strip_prefix(args[i], "--"@) {
        None => (None, i),
        Some(option) => if option.len() == 0 {
            (None, i)
        } else {
            let negated = strip_prefix(option, "no"@) is Some;
            let option = if negated {
                strip_prefix(option, "no"@)->0
            } else {
                option
            };
            let (key, value) = key_and_value(option);
            if label_key(option) {
                if label_key(key) {
                    (Some(seq![label_setting(key, value, negated)]), i)
                } else {
                    (None, i)
                }
            } else if negated || !(string_option(key) || list_option(key)) {
                (None, i)
            } else {
                match value {
                    Some(value) => (Some(native_settings(key, value)), i),
                    None => if i + 1 < args.len() {
                        (Some(native_settings(key, args[i + 1])), i + 1)
                    } else {
                        (None, i + 1)
                    },
                }
            }
        },
    }
}

fn label_setting_of(key: &str, value: Option<&str>, negated: bool) -> (r: String)
    ensures
        r@ == label_setting(key@, value.deep_view(), negated),
{
    match value {
        Some(value) => if same(value, "true") || same(value, "True") || same(value, "1") {
            bazelrc_command_line_build_setting_entry("bool", key, "true")
        } else if same(value, "false") || same(value, "False") || same(value, "0") {
            bazelrc_command_line_build_setting_entry("bool", key, "false")
        } else {
            bazelrc_command_line_build_setting_entry("string", key, value)
        },
        None => if negated {
            bazelrc_command_line_build_setting_entry("bool", key, "false")
        } else {
            bazelrc_command_line_build_setting_entry("bool", key, "true")
        },
    }
}

fn native_settings_of(name: &str, value: &str) -> (r: Vec<String>)
    ensures
        r.deep_view() == native_settings(name@, value@),
{
    let key = concat("//command_line_option:", name);
    if bazelrc_native_command_line_list_option(name) {
        bazelrc_command_line_list_build_setting_entries(name, key.as_str(), value)
    } else {
        let mut out: Vec<String> = Vec::new();
        out.push(bazelrc_command_line_build_setting_entry("string", key.as_str(), value));
        assert(out.deep_view() =~= native_settings(name@, value@));
        out
    }
}

/// The settings of the option at the index, which moves to the last argument
/// that belongs to it.
pub fn bazelrc_command_line_build_setting(args: &Vec<String>, index: &mut usize) -> (r: Option<
    Vec<String>,
>)
    requires
        *old(index) < args@.len(),
    ensures
        build_setting(args.deep_view(), *old(index) as int) == (
            r.deep_view(),
            *final(index) as int,
        ),
        *old(index) <= *final(index) <= *old(index) + 1,
{
    let i: usize = *index;
    let len: usize = args.len();
    assert(args.deep_view()[i as int] == args@[i as int]@);
    let option = match strip_prefix_of(args[i].as_str(), "--") {
        Some(option) => option,
        None => {
            return None;
        },
    };
    if option.unicode_len() == 0 {
        return None;
    }
    let (negated, option) = match strip_prefix_of(option, "no") {
        Some(option) => (true, option),
        None => (false, option),
    };
    let (key, value) = match split_once_of(option, "=") {
        Some((key, value)) => (key, Some(value)),
        None => (option, None),
    };
    assert((key@, value.deep_view()) == key_and_value(option@));
    if bazelrc_label_build_setting_key(option) {
        if !bazelrc_label_build_setting_key(key) {
            return None;
        }
        let mut out: Vec<String> = Vec::new();
        out.push(label_setting_of(key, value, negated));
        assert(out.deep_view() =~= seq![label_setting(key@, value.deep_view(), negated)]);
        return Some(out);
    }
    if negated {
        return None;
    }
    if !bazelrc_native_command_line_string_option(key) && !bazelrc_native_command_line_list_option(
        key,
    ) {
        return None;
    }
    match value {
        Some(value) => Some(native_settings_of(key, value)),
        None => {
            *index = i + 1;
            if i + 1 < len {
                assert(args.deep_view()[i + 1] == args@[i + 1]@);
                Some(native_settings_of(key, args[i + 1].as_str()))
            } else {
                None
            }
        },
    }
}

/// The configurations that the arguments from `i` on switch on, and whether one
/// of them is new.
pub open spec fn configs_from(args: Seq<Text>, i: int, active: Seq<Text>, changed: bool) -> (
    Seq<Text>,
    bool,
)
    decreases args.len() + 1 - i,
{
    if i < 0 || i >= args.len() {
        (active, changed)
    } else {
        let (value, j) = option_value(args, i, "--config"@);
        match value {
            Some(config) => configs_from(
                args,
                j + 1,
                set_put::<String>(active, config),
                changed || !active.contains(config),
            ),
            None => configs_from(args, j + 1, active, changed),
        }
    }
}

/// The options that are collected as they are, by number.
pub open spec fn option_name(k: int) -> Text {
    if k == 0 {
        "--copt"@
    } else if k == 1 {
        "--conlyopt"@
    } else if k == 2 {
        "--cxxopt"@
    } else if k == 3 {
        "--host_copt"@
    } else if k == 4 {
        "--host_conlyopt"@
    } else if k == 5 {
        "--host_cxxopt"@
    } else if k == 6 {
        "--per_file_copt"@
    } else if k == 7 {
        "--macos_minimum_os"@
    } else {
        "--host_macos_minimum_os"@
    }
}

/// The options with one more value of the option of that number.
pub open spec fn with_option(
    o: BazelCompatBazelrcOptionsModel,
    k: int,
    value: Text,
) -> BazelCompatBazelrcOptionsModel {
    if k == 0 {
        BazelCompatBazelrcOptionsModel { copt: o.copt.push(value), ..o }
    } else if k == 1 {
        BazelCompatBazelrcOptionsModel { conlyopt: o.conlyopt.push(value), ..o }
    } else if k == 2 {
        BazelCompatBazelrcOptionsModel { cxxopt: o.cxxopt.push(value), ..o }
    } else if k == 3 {
        BazelCompatBazelrcOptionsModel { host_copt: o.host_copt.push(value), ..o }
    } else if k == 4 {
        BazelCompatBazelrcOptionsModel { host_conlyopt: o.host_conlyopt.push(value), ..o }
    } else if k == 5 {
        BazelCompatBazelrcOptionsModel { host_cxxopt: o.host_cxxopt.push(value), ..o }
    } else if k == 6 {
        BazelCompatBazelrcOptionsModel { per_file_copt: o.per_file_copt.push(value), ..o }
    } else if k == 7 {
        BazelCompatBazelrcOptionsModel { macos_minimum_os: o.macos_minimum_os.push(value), ..o }
    } else {
        BazelCompatBazelrcOptionsModel {
            host_macos_minimum_os: o.host_macos_minimum_os.push(value),
            ..o
        }
    }
}

/// The options after the argument at `i`, tried as an option of the numbers
/// from `k` on and then as a build setting, and the argument that the scan is
/// at then. None where an option that needs a value is the last argument.
pub open spec fn option_from(
    args: Seq<Text>,
    i: int,
    o: BazelCompatBazelrcOptionsModel,
    k: int,
) -> Option<(BazelCompatBazelrcOptionsModel, int)>
    decreases 9 - k,
{
    if k < 0 || k >= 9 {
        match build_setting(args, i) {
            (Some(settings), j) => Some(
                (
                    BazelCompatBazelrcOptionsModel {
                        command_line_build_settings: o.command_line_build_settings + settings,
                        ..o
                    },
                    j,
                ),
            ),
            (None, j) => Some((o, j)),
        }
    } else {
        match option_value(args, i, option_name(k)) {
            (Some(value), j) => Some((with_option(o, k, value), j)),
            (None, j) => if j == i {
                option_from(args, i, o, k + 1)
            } else {
                None
            },
        }
    }
}

/// The options and the configurations after the arguments from `i` on. None
/// where an option that needs a value is the last argument.
pub open spec fn options_from(
    args: Seq<Text>,
    i: int,
    o: BazelCompatBazelrcOptionsModel,
    active: Seq<Text>,
) -> Option<(BazelCompatBazelrcOptionsModel, Seq<Text>)>
    decreases args.len() + 1 - i,
{
    if i < 0 || i >= args.len() {
        Some((o, active))
    } else {
        match option_value(args, i, "--config"@) {
            (Some(config), j) => options_from(
                args,
                j + 1,
                o,
                set_put::<String>(active, config),
            ),
            (None, j) => if j != i {
                None
            } else {
                match option_from(args, i, o, 0) {
                    None => None,
                    Some((next, j)) => if !(i <= j <= i + 1) {
                        None
                    } else {
                        options_from(args, j + 1, next, active)
                    },
                }
            },
        }
    }
}

proof fn lemma_option_from(args: Seq<Text>, i: int, o: BazelCompatBazelrcOptionsModel, k: int)
    requires
        0 <= k,
    ensures
        option_from(args, i, o, k) matches Some((next, j)) ==> i <= j <= i + 1,
    decreases 9 - k,
{
    if k < 9 {
        lemma_option_from(args, i, o, k + 1);
    }
}

fn push_text(texts: &mut Vec<String>, text: String)
    ensures
        final(texts).deep_view() == old(texts).deep_view().push(text@),
{
    let ghost before = texts.deep_view();
    texts.push(text);
    assert(texts.deep_view() =~= before.push(text@));
}

fn push_texts(texts: &mut Vec<String>, more: Vec<String>)
    ensures
        final(texts).deep_view() == old(texts).deep_view() + more.deep_view(),
{
    let ghost before = texts.deep_view();
    let mut i: usize = 0;
    assert(before =~= before + more.deep_view().take(0));
    while i < more.len()
        invariant
            0 <= i <= more@.len(),
            texts.deep_view() == before + more.deep_view().take(i as int),
        decreases more.len() - i,
    {
        push_text(texts, more[i].clone());
        assert(texts.deep_view() =~= before + more.deep_view().take(i + 1));
        i += 1;
    }
    assert(more.deep_view().take(i as int) =~= more.deep_view());
}

fn name_of_option(k: usize) -> (r: &'static str)
    ensures
        r@ == option_name(k as int),
{
    if k == 0 {
        "--copt"
    } else if k == 1 {
        "--conlyopt"
    } else if k == 2 {
        "--cxxopt"
    } else if k == 3 {
        "--host_copt"
    } else if k == 4 {
        "--host_conlyopt"
    } else if k == 5 {
        "--host_cxxopt"
    } else if k == 6 {
        "--per_file_copt"
    } else if k == 7 {
        "--macos_minimum_os"
    } else {
        "--host_macos_minimum_os"
    }
}

fn push_option(options: &mut BazelCompatBazelrcOptions, k: usize, value: String)
    ensures
        final(options).deep_view() == with_option(old(options).deep_view(), k as int, value@),
{
    if k == 0 {
        push_text(&mut options.copt, value);
    } else if k == 1 {
        push_text(&mut options.conlyopt, value);
    } else if k == 2 {
        push_text(&mut options.cxxopt, value);
    } else if k == 3 {
        push_text(&mut options.host_copt, value);
    } else if k == 4 {
        push_text(&mut options.host_conlyopt, value);
    } else if k == 5 {
        push_text(&mut options.host_cxxopt, value);
    } else if k == 6 {
        push_text(&mut options.per_file_copt, value);
    } else if k == 7 {
        push_text(&mut options.macos_minimum_os, value);
    } else {
        push_text(&mut options.host_macos_minimum_os, value);
    }
}

/// Adds the option at the index. False where an option that needs a value is
/// the last argument.
fn add_option(options: &mut BazelCompatBazelrcOptions, args: &Vec<String>, index: &mut usize) -> (r:
    bool)
    requires
        *old(index) < args@.len(),
    ensures
        option_from(args.deep_view(), *old(index) as int, old(options).deep_view(), 0) == (if r {
            Some((final(options).deep_view(), *final(index) as int))
        } else {
            None
        }),
        *old(index) <= *final(index) <= *old(index) + 1,
{
    let ghost o = options.deep_view();
    let i: usize = *index;
    let mut k: usize = 0;
    while k < 9
        invariant
            0 <= k <= 9,
            i < args@.len(),
            *index == i,
            options.deep_view() == o,
            option_from(args.deep_view(), i as int, o, 0) == option_from(
                args.deep_view(),
                i as int,
                o,
                k as int,
            ),
            i == *old(index),
            o == old(options).deep_view(),
        decreases 9 - k,
    {
        match bazelrc_arg_value(args, index, name_of_option(k)) {
            Some(value) => {
                push_option(options, k, value);
                return true;
            },
            None => {
                if *index != i {
                    return false;
                }
            },
        }
        k += 1;
    }
    match bazelrc_command_line_build_setting(args, index) {
        Some(settings) => {
            push_texts(&mut options.command_line_build_settings, settings);
        },
        None => {},
    }
    true
}

/// Switches on the configurations of the arguments and, where asked to, collects
/// their options; returns whether a configuration is new.
pub fn bazelrc_add_options(
    options: &mut BazelCompatBazelrcOptions,
    args: &Vec<String>,
    collect_options: bool,
    active_configs: &mut KeySet<String>,
) -> (r: bool)
    requires
        sorted_set::<String>(old(active_configs).deep_view()),
        collect_options ==> options_from(
            args.deep_view(),
            0,
            old(options).deep_view(),
            old(active_configs).deep_view(),
        ) is Some,
    ensures
        sorted_set::<String>(final(active_configs).deep_view()),
        collect_options ==> options_from(
            args.deep_view(),
            0,
            old(options).deep_view(),
            old(active_configs).deep_view(),
        ) == Some((final(options).deep_view(), final(active_configs).deep_view())),
        !collect_options ==> final(options).deep_view() == old(options).deep_view(),
        !collect_options ==> configs_from(
            args.deep_view(),
            0,
            old(active_configs).deep_view(),
            false,
        ) == (final(active_configs).deep_view(), r),
        r == (final(active_configs).deep_view() != old(active_configs).deep_view()),
{
    let ghost model = args.deep_view();
    let ghost o = options.deep_view();
    let ghost a = active_configs.deep_view();
    let mut changed = false;
    let mut index: usize = 0;
    let len: usize = args.len();
    while index < len
        invariant
            model == args.deep_view(),
            len == args@.len(),
            index <= len,
            sorted_set::<String>(active_configs.deep_view()),
            collect_options ==> options_from(model, 0, o, a) == options_from(
                model,
                index as int,
                options.deep_view(),
                active_configs.deep_view(),
            ),
            collect_options ==> options_from(model, 0, o, a) is Some,
            !collect_options ==> options.deep_view() == o,
            !collect_options ==> configs_from(model, 0, a, false) == configs_from(
                model,
                index as int,
                active_configs.deep_view(),
                changed,
            ),
            a.len() <= active_configs.deep_view().len(),
            changed == (a.len() < active_configs.deep_view().len()),
            !changed ==> active_configs.deep_view() == a,
        decreases len - index,
    {
        let ghost start = index as int;
        let ghost known = active_configs.deep_view();
        match bazelrc_arg_value(args, &mut index, "--config") {
            Some(config) => {
                proof {
                    lemma_set_put_len(known, config@);
                }
                let new = active_configs.insert(config);
                changed = changed || new;
            },
            None => {
                if collect_options {
                    let done = add_option(options, args, &mut index);
                    assert(done);
                    proof {
                        lemma_option_from(model, start, options.deep_view(), 0);
                    }
                }
            },
        }
        proof {
            reveal_with_fuel(options_from, 2);
            reveal_with_fuel(configs_from, 2);
        }
        if index < len {
            index += 1;
        }
    }
    changed
}

proof fn lemma_set_put_len(items: Seq<Text>, k: Text)
    requires
        sorted_set::<String>(items),
    ensures
        set_put::<String>(items, k).len() == items.len() + (if items.contains(k) {
            0int
        } else {
            1
        }),
        items.contains(k) ==> set_put::<String>(items, k) == items,
    decreases items.len(),
{
    if items.len() > 0 {
        if items[0] == k {
            assert(items.contains(k));
        } else if text_lt(k, items[0]) {
            assert forall|i: int| 0 <= i < items.len() implies items[i] != k by {
                if i > 0 {
                    lemma_text_lt_transitive(k, items[0], items[i]);
                    lemma_text_lt_irreflexive(k);
                }
            }
        } else {
            let rest = items.skip(1);
            assert(sorted_set::<String>(rest));
            lemma_set_put_len(rest, k);
            if items.contains(k) {
                let i = choose|i: int| 0 <= i < items.len() && items[i] == k;
                assert(rest[i - 1] == k);
                assert(set_put::<String>(items, k) =~= items);
            } else {
                assert forall|i: int| 0 <= i < rest.len() implies rest[i] != k by {
                    assert(rest[i] == items[i + 1]);
                }
            }
        }
    }
}

/// Whether an argument switches the host's configuration on or off.
pub open spec fn platform_switch(arg: Text) -> Option<bool> {
    if arg == "--enable_platform_specific_config"@ || arg
        == "--enable_platform_specific_config=true"@ {
        Some(true)
    } else if arg == "--noenable_platform_specific_config"@ || arg
        == "--enable_platform_specific_config=false"@ {
        Some(false)
    } else {
        None
    }
}

/// The last switch among the arguments, or what held before.
pub open spec fn platform_in_args(args: Seq<Text>, before: bool) -> bool
    decreases args.len(),
{
    if args.len() == 0 {
        before
    } else {
        match platform_switch(args.last()) {
            Some(on) => on,
            None => platform_in_args(args.drop_last(), before),
        }
    }
}

/// Whether the records for every build switch the host's configuration on.
pub open spec fn platform_enabled(records: Seq<BazelrcRecordModel>) -> bool
    decreases records.len(),
{
    if records.len() == 0 {
        false
    } else {
        let before = platform_enabled(records.drop_last());
        let (command, config) = command_parts(records.last().command);
        if build_command(command) && config.len() == 0 {
            platform_in_args(records.last().args, before)
        } else {
            before
        }
    }
}

/// The configurations after one pass over the records from `i` on, and whether
/// one of them is new.
pub open spec fn configs_pass(
    records: Seq<BazelrcRecordModel>,
    i: int,
    active: Seq<Text>,
    changed: bool,
) -> (Seq<Text>, bool)
    decreases records.len() - i,
{
    if i < 0 || i >= records.len() {
        (active, changed)
    } else if record_applies(records[i], active) {
        let (next, new) = configs_from(records[i].args, 0, active, false);
        configs_pass(records, i + 1, next, changed || new)
    } else {
        configs_pass(records, i + 1, active, changed)
    }
}

/// All that an argument can name as a configuration.
pub open spec fn candidates_in(args: Seq<Text>) -> Seq<Text>
    decreases args.len(),
{
    if args.len() == 0 {
        seq![]
    } else {
        let rest = candidates_in(args.drop_last()).push(args.last());
        match strip_prefix(args.last(), "--config="@) {
            Some(config) => rest.push(config),
            None => rest,
        }
    }
}

/// All that the records can name as a configuration.
pub open spec fn candidates(records: Seq<BazelrcRecordModel>) -> Seq<Text>
    decreases records.len(),
{
    if records.len() == 0 {
        seq![]
    } else {
        candidates(records.drop_last()) + candidates_in(records.last().args)
    }
}

proof fn lemma_candidates_in(args: Seq<Text>, i: int)
    requires
        0 <= i < args.len(),
    ensures
        candidates_in(args).contains(args[i]),
        strip_prefix(args[i], "--config="@) is Some ==> candidates_in(args).contains(
            strip_prefix(args[i], "--config="@)->0,
        ),
    decreases args.len(),
{
    let rest = candidates_in(args.drop_last()).push(args.last());
    let whole = candidates_in(args);
    assert(rest[rest.len() - 1] == args.last());
    assert(within(rest, whole)) by {
        assert forall|x: Text| #[trigger] rest.contains(x) implies whole.contains(x) by {
            let j = choose|j: int| 0 <= j < rest.len() && rest[j] == x;
            assert(whole[j] == x);
        }
    }
    if i == args.len() - 1 {
        assert(rest.contains(args[i]));
        if strip_prefix(args[i], "--config="@) is Some {
            assert(whole[whole.len() - 1] == strip_prefix(args[i], "--config="@)->0);
        }
    } else {
        let init = candidates_in(args.drop_last());
        lemma_candidates_in(args.drop_last(), i);
        assert forall|x: Text| #[trigger] init.contains(x) implies rest.contains(x) by {
            let j = choose|j: int| 0 <= j < init.len() && init[j] == x;
            assert(rest[j] == x);
        }
        assert(args.drop_last()[i] == args[i]);
    }
}

proof fn lemma_candidates(records: Seq<BazelrcRecordModel>, i: int, x: Text)
    requires
        0 <= i < records.len(),
        candidates_in(records[i].args).contains(x),
    ensures
        candidates(records).contains(x),
    decreases records.len(),
{
    let first = candidates(records.drop_last());
    let last = candidates_in(records.last().args);
    let whole = candidates(records);
    if i == records.len() - 1 {
        let j = choose|j: int| 0 <= j < last.len() && last[j] == x;
        assert(whole[first.len() + j] == x);
    } else {
        lemma_candidates(records.drop_last(), i, x);
        let j = choose|j: int| 0 <= j < first.len() && first[j] == x;
        assert(whole[j] == x);
    }
}

/// What a scan of arguments adds is new exactly where it says so, and comes from
/// the arguments.
proof fn lemma_configs_from(
    args: Seq<Text>,
    i: int,
    active: Seq<Text>,
    changed: bool,
    all: Seq<Text>,
)
    requires
        0 <= i,
        within(candidates_in(args), all),
    ensures
        within(active, configs_from(args, i, active, changed).0),
        changed ==> configs_from(args, i, active, changed).1,
        configs_from(args, i, active, changed).1 && !changed ==> missing(
            all,
            configs_from(args, i, active, changed).0,
        ) < missing(all, active),
    decreases args.len() + 1 - i,
{
    if i < args.len() {
        let (value, j) = option_value(args, i, "--config"@);
        match value {
            Some(config) => {
                let next = set_put::<String>(active, config);
                let new = !active.contains(config);
                let out = configs_from(args, i, active, changed).0;
                lemma_candidates_in(args, i);
                if j == i + 1 {
                    lemma_candidates_in(args, i + 1);
                }
                assert("--config"@ + "="@ == "--config="@) by {
                    reveal_strlit("--config");
                    reveal_strlit("=");
                    reveal_strlit("--config=");
                    assert("--config"@ + "="@ =~= "--config="@);
                }
                assert(candidates_in(args).contains(config));
                assert forall|x: Text| #[trigger] active.contains(x) implies next.contains(x) by {
                    law_set_put_contains::<String>(active, config, x);
                }
                law_set_put_contains::<String>(active, config, config);
                lemma_configs_from(args, j + 1, next, changed || new, all);
                assert(next.contains(config));
                lemma_missing(all, active, out);
                lemma_missing(all, active, next);
                lemma_missing(all, next, out);
                assert(all.contains(config));
            },
            None => {
                lemma_configs_from(args, j + 1, active, changed, all);
            },
        }
    }
}

proof fn lemma_configs_pass(
    records: Seq<BazelrcRecordModel>,
    i: int,
    active: Seq<Text>,
    changed: bool,
)
    requires
        0 <= i,
    ensures
        within(active, configs_pass(records, i, active, changed).0),
        changed ==> configs_pass(records, i, active, changed).1,
        configs_pass(records, i, active, changed).1 && !changed ==> missing(
            candidates(records),
            configs_pass(records, i, active, changed).0,
        ) < missing(candidates(records), active),
    decreases records.len() - i,
{
    if i < records.len() {
        let all = candidates(records);
        if record_applies(records[i], active) {
            let (next, new) = configs_from(records[i].args, 0, active, false);
            assert forall|x: Text| #[trigger]
                candidates_in(records[i].args).contains(x) implies all.contains(x) by {
                lemma_candidates(records, i, x);
            }
            lemma_configs_from(records[i].args, 0, active, false, all);
            lemma_configs_pass(records, i + 1, next, changed || new);
            let out = configs_pass(records, i + 1, next, changed || new).0;
            lemma_missing(all, active, next);
            lemma_missing(all, next, out);
        } else {
            lemma_configs_pass(records, i + 1, active, changed);
        }
    }
}

/// The configurations that passes over the records switch on, until a pass adds
/// none.
pub open spec fn active_configs(records: Seq<BazelrcRecordModel>, active: Seq<Text>) -> Seq<Text>
    decreases missing(candidates(records), active),
    via active_configs_decreases
{
    let (next, changed) = configs_pass(records, 0, active, false);
    if changed {
        active_configs(records, next)
    } else {
        next
    }
}

#[via_fn]
proof fn active_configs_decreases(records: Seq<BazelrcRecordModel>, active: Seq<Text>) {
    lemma_configs_pass(records, 0, active, false);
}

/// The configurations that hold before any record names one.
pub open spec fn first_configs(records: Seq<BazelrcRecordModel>, host_config: Text) -> Seq<Text> {
    if platform_enabled(records) && host_config.len() > 0 {
        set_put::<String>(seq![], host_config)
    } else {
        seq![]
    }
}

/// The options of the records from `i` on that apply. None where an option that
/// needs a value is the last argument of one of them.
pub open spec fn collected(
    records: Seq<BazelrcRecordModel>,
    i: int,
    o: BazelCompatBazelrcOptionsModel,
    active: Seq<Text>,
) -> Option<BazelCompatBazelrcOptionsModel>
    decreases records.len() - i,
{
    if i < 0 || i >= records.len() {
        Some(o)
    } else if record_applies(records[i], active) {
        match options_from(records[i].args, 0, o, active) {
            Some((next, active)) => collected(records, i + 1, next, active),
            None => None,
        }
    } else {
        collected(records, i + 1, o, active)
    }
}

/// The options of the records that apply on a host of that configuration. None
/// where an option that needs a value is the last argument of one of them.
pub open spec fn record_options(records: Seq<BazelrcRecordModel>, host_config: Text) -> Option<
    BazelCompatBazelrcOptionsModel,
> {
    collected(
        records,
        0,
        no_options(),
        active_configs(records, first_configs(records, host_config)),
    )
}

fn platform_specific_config(records: &Vec<BazelrcRecord>) -> (r: bool)
    ensures
        r == platform_enabled(records.deep_view()),
{
    let ghost model = records.deep_view();
    let mut enabled = false;
    let mut i: usize = 0;
    while i < records.len()
        invariant
            model == records.deep_view(),
            0 <= i <= records@.len(),
            enabled == platform_enabled(model.take(i as int)),
        decreases records.len() - i,
    {
        proof {
            let t = model.take(i + 1);
            assert(t.drop_last() =~= model.take(i as int));
            assert(t.last() == records@[i as int].deep_view());
        }
        let (command, config) = split_command(records[i].command.as_str());
        if is_build_command(command) && config.unicode_len() == 0 {
            let args = &records[i].args;
            let ghost texts = args.deep_view();
            let ghost before = enabled;
            let mut j: usize = 0;
            while j < args.len()
                invariant
                    texts == args.deep_view(),
                    0 <= j <= args@.len(),
                    enabled == platform_in_args(texts.take(j as int), before),
                decreases args.len() - j,
            {
                proof {
                    let t = texts.take(j + 1);
                    assert(t.drop_last() =~= texts.take(j as int));
                    assert(t.last() == args@[j as int]@);
                }
                let arg = args[j].as_str();
                if same(arg, "--enable_platform_specific_config") || same(
                    arg,
                    "--enable_platform_specific_config=true",
                ) {
                    enabled = true;
                } else if same(arg, "--noenable_platform_specific_config") || same(
                    arg,
                    "--enable_platform_specific_config=false",
                ) {
                    enabled = false;
                }
                j += 1;
            }
            assert(texts.take(j as int) =~= texts);
        }
        i += 1;
    }
    assert(model.take(i as int) =~= model);
    enabled
}

/// One pass over the records; returns whether it switched a configuration on.
fn pass(records: &Vec<BazelrcRecord>, active: &mut KeySet<String>) -> (r: bool)
    requires
        sorted_set::<String>(old(active).deep_view()),
    ensures
        sorted_set::<String>(final(active).deep_view()),
        configs_pass(records.deep_view(), 0, old(active).deep_view(), false) == (
            final(active).deep_view(),
            r,
        ),
{
    let ghost model = records.deep_view();
    let ghost first = active.deep_view();
    let mut ignored = empty_bazelrc_options();
    let mut changed = false;
    let mut i: usize = 0;
    while i < records.len()
        invariant
            model == records.deep_view(),
            0 <= i <= records@.len(),
            sorted_set::<String>(active.deep_view()),
            configs_pass(model, 0, first, false) == configs_pass(
                model,
                i as int,
                active.deep_view(),
                changed,
            ),
        decreases records.len() - i,
    {
        assert(model[i as int] == records@[i as int].deep_view());
        if bazelrc_record_applies(&records[i], active) {
            let new = bazelrc_add_options(&mut ignored, &records[i].args, false, active);
            changed = changed || new;
        }
        i += 1;
    }
    changed
}

/// The options of the records that apply on a host of that configuration. None
/// where an option that needs a value is the last argument of one of them.
pub fn checked_bazelrc_options(records: &Vec<BazelrcRecord>, host_config: &str) -> (r: Option<
    BazelCompatBazelrcOptions,
>)
    ensures
        r.deep_view() == record_options(records.deep_view(), host_config@),
{
    let ghost model = records.deep_view();
    let mut active: KeySet<String> = KeySet::new();
    assert(active.deep_view() =~= seq![]);
    if platform_specific_config(records) && host_config.unicode_len() > 0 {
        active.insert(host_config.to_owned());
    }
    let ghost first = active.deep_view();
    assert(first == first_configs(model, host_config@));
    let mut changed = true;
    while changed
        invariant
            model == records.deep_view(),
            sorted_set::<String>(active.deep_view()),
            changed ==> active_configs(model, first) == active_configs(model, active.deep_view()),
            !changed ==> active_configs(model, first) == active.deep_view(),
        decreases
            (if changed {
                1int
            } else {
                0
            }),
            missing(candidates(model), active.deep_view()),
    {
        proof {
            lemma_configs_pass(model, 0, active.deep_view(), false);
        }
        changed = pass(records, &mut active);
    }
    let mut options = empty_bazelrc_options();
    let mut i: usize = 0;
    while i < records.len()
        invariant
            model == records.deep_view(),
            0 <= i <= records@.len(),
            sorted_set::<String>(active.deep_view()),
            record_options(model, host_config@) == collected(
                model,
                i as int,
                options.deep_view(),
                active.deep_view(),
            ),
        decreases records.len() - i,
    {
        assert(model[i as int] == records@[i as int].deep_view());
        if bazelrc_record_applies(&records[i], &active) {
            if !complete(&records[i].args, &options, &active) {
                return None;
            }
            bazelrc_add_options(&mut options, &records[i].args, true, &mut active);
        }
        i += 1;
    }
    Some(options)
}

/// Whether no option of the arguments that needs a value is the last of them.
fn complete(
    args: &Vec<String>,
    start_options: &BazelCompatBazelrcOptions,
    active: &KeySet<String>,
) -> (r: bool)
    ensures
        r == (options_from(
            args.deep_view(),
            0,
            start_options.deep_view(),
            active.deep_view(),
        ) is Some),
{
    let ghost model = args.deep_view();
    let ghost whole = options_from(
        model,
        0,
        start_options.deep_view(),
        active.deep_view(),
    );
    let ghost mut configs = active.deep_view();
    let mut options = start_options.duplicate();
    let mut index: usize = 0;
    let len: usize = args.len();
    while index < len
        invariant
            model == args.deep_view(),
            len == args@.len(),
            index <= len,
            whole == options_from(args.deep_view(), 0, start_options.deep_view(), active.deep_view()),
            whole == options_from(
                model,
                index as int,
                options.deep_view(),
                configs,
            ),
        decreases len - index,
    {
        let ghost start = index as int;
        match bazelrc_arg_value(args, &mut index, "--config") {
            Some(config) => {
                proof {
                    configs = set_put::<String>(configs, config@);
                }
            },
            None => {
                if index >= len {
                    return false;
                }
                let ghost before = options.deep_view();
                if !add_option(&mut options, args, &mut index) {
                    return false;
                }
                proof {
                    lemma_option_from(model, start, before, 0);
                }
            },
        }
        proof {
            reveal_with_fuel(options_from, 2);
        }
        if index < len {
            index += 1;
        }
    }
    true
}

/// The options of the records that apply on a host of that configuration.
pub fn bazelrc_options_from_records(records: &Vec<BazelrcRecord>, host_config: &str) -> (r:
    BazelCompatBazelrcOptions)
    requires
        record_options(records.deep_view(), host_config@) is Some,
    ensures
        record_options(records.deep_view(), host_config@) == Some(r.deep_view()),
{
    checked_bazelrc_options(records, host_config).unwrap()
}

proof fn lemma_label_option(key: Text, after: Text)
    requires
        key.len() > 0,
        key[0] == '@' || key[0] == ':' || (key.len() > 1 && key[0] == '/' && key[1] == '/'),
    ensures
        label_key(key + after),
        strip_prefix(key + after, "no"@) is None,
        !("no"@.is_prefix_of(key + after)),
{
    reveal_strlit("@");
    reveal_strlit(":");
    reveal_strlit("//");
    reveal_strlit("no");
    let s = key + after;
    assert(s[0] == key[0]);
    if key[0] == '@' {
        assert(s.subrange(0, 1) =~= "@"@);
    } else if key[0] == ':' {
        assert(s.subrange(0, 1) =~= ":"@);
    } else {
        assert(s[1] == key[1]);
        assert(s.subrange(0, 2) =~= "//"@);
    }
    if "no"@.is_prefix_of(s) {
        assert(s.subrange(0, 2)[0] == s[0]);
    }
}

/// A flag that is a label gives one setting: it is switched on by `--key` and off by
/// `--nokey`; a value that is a truth value switches it as it says, however it is spelled,
/// and any other value is taken as it is.
pub proof fn law_label_flag(args: Seq<Text>, i: int, key: Text, value: Text)
    requires
        0 <= i < args.len(),
        key.len() > 0,
        key[0] == '@' || key[0] == ':' || (key.len() > 1 && key[0] == '/' && key[1] == '/'),
        !key.contains('='),
    ensures
        args[i] == "--"@ + key ==> build_setting(args, i) == (
            Some(seq!["bool\t"@ + key + "\ttrue"@]),
            i,
        ),
        args[i] == "--no"@ + key ==> build_setting(args, i) == (
            Some(seq!["bool\t"@ + key + "\tfalse"@]),
            i,
        ),
        (args[i] == "--"@ + key + "="@ + value || args[i] == "--no"@ + key + "="@ + value) ==> {
            &&& value == "true"@ || value == "True"@ || value == "1"@ ==> build_setting(args, i)
                == (Some(seq!["bool\t"@ + key + "\ttrue"@]), i)
            &&& value == "false"@ || value == "False"@ || value == "0"@ ==> build_setting(args, i)
                == (Some(seq!["bool\t"@ + key + "\tfalse"@]), i)
            &&& value != "true"@ && value != "True"@ && value != "1"@ && value != "false"@ && value
                != "False"@ && value != "0"@ ==> build_setting(args, i) == (
                Some(seq!["string\t"@ + key + "\t"@ + value]),
                i,
            )
        },
{
    reveal_strlit("=");
    reveal_strlit("--");
    reveal_strlit("no");
    reveal_strlit("--no");
    reveal_strlit("bool");
    reveal_strlit("bool\t");
    reveal_strlit("string");
    reveal_strlit("string\t");
    reveal_strlit("true");
    reveal_strlit("True");
    reveal_strlit("1");
    reveal_strlit("false");
    reveal_strlit("False");
    reveal_strlit("0");
    reveal_strlit("\t");
    reveal_strlit("\ttrue");
    reveal_strlit("\tfalse");
    let e: Text = seq![];
    let assigned = key + "="@ + value;
    assert("="@ =~= seq!['=']);
    assert("--no"@ =~= "--"@ + "no"@);
    lemma_split_at_char(key, '=', value);
    lemma_label_option(key, e);
    assert(key + e =~= key);
    lemma_label_option(key, "="@ + value);
    assert(key + ("="@ + value) =~= assigned);
    lemma_strip_put_prefix("--"@, key);
    lemma_strip_put_prefix("--"@, assigned);
    lemma_strip_put_prefix("--"@, "no"@ + key);
    lemma_strip_put_prefix("--"@, "no"@ + assigned);
    lemma_strip_put_prefix("no"@, key);
    lemma_strip_put_prefix("no"@, assigned);
    assert("--"@ + key + "="@ + value =~= "--"@ + assigned);
    assert("--no"@ + key =~= "--"@ + ("no"@ + key));
    assert("--no"@ + key + "="@ + value =~= "--"@ + ("no"@ + assigned));
    assert(setting_text("bool"@, key, "true"@) =~= "bool\t"@ + key + "\ttrue"@);
    assert(setting_text("bool"@, key, "false"@) =~= "bool\t"@ + key + "\tfalse"@);
    assert(setting_text("string"@, key, value) =~= "string\t"@ + key + "\t"@ + value);
    assert("true"@[0] != "false"@[0] && "True"@[0] != "False"@[0]);
    assert("1"@[0] != "0"@[0] && "1"@.len() == 1 && "0"@.len() == 1);
    assert("true"@.len() == 4 && "True"@.len() == 4 && "false"@.len() == 5 && "False"@.len() == 5);
}

proof fn lemma_own_value(name: Text, value: Text)
    ensures
        option_value(seq![name + "="@ + value], 0, name) == (Some(value), 0int),
        option_value(seq![name, value], 0, name) == (Some(value), 1int),
{
    reveal_strlit("=");
    lemma_strip_put_prefix(name + "="@, value);
    if (name + "="@).is_prefix_of(name) {
        assert(false);
    }
}

proof fn lemma_other_option(args: Seq<Text>, name: Text, d: int)
    requires
        args.len() > 0,
        0 <= d < name.len(),
        d < args[0].len(),
        args[0][d] != name[d],
    ensures
        option_value(args, 0, name) == (None::<Text>, 0int),
{
    let prefix = name + "="@;
    if prefix.is_prefix_of(args[0]) {
        assert(args[0].subrange(0, prefix.len() as int)[d] == prefix[d]);
        assert(prefix[d] == name[d]);
    }
}

spec fn is_option_at(args: Seq<Text>, k: int) -> bool {
    &&& args.len() > 0
    &&& option_name(k).len() <= args[0].len()
    &&& forall|d: int| 0 <= d < option_name(k).len() ==> #[trigger] args[0][d] == option_name(k)[d]
}

proof fn lemma_option_alone(args: Seq<Text>, k: int)
    requires
        0 <= k < 9,
        is_option_at(args, k),
    ensures
        option_value(args, 0, "--config"@) == (None::<Text>, 0int),
        forall|j: int|
            0 <= j < k ==> option_value(args, 0, #[trigger] option_name(j)) == (None::<Text>, 0int),
{
    reveal_strlit("--config");
    reveal_strlit("--copt");
    reveal_strlit("--conlyopt");
    reveal_strlit("--cxxopt");
    reveal_strlit("--host_copt");
    reveal_strlit("--host_conlyopt");
    reveal_strlit("--host_cxxopt");
    reveal_strlit("--per_file_copt");
    reveal_strlit("--macos_minimum_os");
    reveal_strlit("--host_macos_minimum_os");
    let a = args[0];
    let own = option_name(k);
    assert(a[2] == own[2] && a[3] == own[3] && a[4] == own[4] && a[5] == own[5]);
    if k == 0 {
        lemma_other_option(args, "--config"@, 4);
    } else if k == 1 {
        lemma_other_option(args, "--config"@, 5);
    } else if k == 2 {
        lemma_other_option(args, "--config"@, 3);
    } else {
        lemma_other_option(args, "--config"@, 2);
        if own.len() > 9 {
            assert(a[7] == own[7] && a[8] == own[8] && a[9] == own[9]);
        }
    }
    assert forall|j: int| 0 <= j < k implies option_value(args, 0, #[trigger] option_name(j)) == (
        None::<Text>,
        0int,
    ) by {
        let other = option_name(j);
        if own[2] != other[2] {
            lemma_other_option(args, other, 2);
        } else if k == 1 {
            lemma_other_option(args, other, 4);
        } else if k == 2 {
            lemma_other_option(args, other, 3);
        } else if k == 4 {
            lemma_other_option(args, other, 9);
        } else if k == 5 {
            lemma_other_option(args, other, 8);
        } else {
            assert(k == 8 && 3 <= j <= 5);
            lemma_other_option(args, other, 7);
        }
    }
}

proof fn lemma_option_collected(
    args: Seq<Text>,
    o: BazelCompatBazelrcOptionsModel,
    active: Seq<Text>,
    k: int,
    value: Text,
)
    requires
        0 <= k < 9,
        args == seq![option_name(k) + "="@ + value] || args == seq![option_name(k), value],
    ensures
        options_from(args, 0, o, active) == Some((with_option(o, k, value), active)),
{
    assert(is_option_at(args, k));
    lemma_option_alone(args, k);
    lemma_own_value(option_name(k), value);
    lemma_option_tried(args, o, k, 0);
    reveal_with_fuel(options_from, 2);
    reveal_with_fuel(option_from, 2);
}

proof fn lemma_option_tried(args: Seq<Text>, o: BazelCompatBazelrcOptionsModel, k: int, j: int)
    requires
        0 <= j <= k < 9,
        forall|i: int|
            0 <= i < k ==> option_value(args, 0, #[trigger] option_name(i)) == (None::<Text>, 0int),
    ensures
        option_from(args, 0, o, j) == option_from(args, 0, o, k),
    decreases k - j,
{
    if j < k {
        assert(option_value(args, 0, option_name(j)) == (None::<Text>, 0int));
        lemma_option_tried(args, o, k, j + 1);
    }
}

/// The value of a compiler option, behind `=` or as the next argument, goes at the end of
/// the options of that name, and nothing else changes.
pub proof fn law_compiler_options(
    o: BazelCompatBazelrcOptionsModel,
    active: Seq<Text>,
    args: Seq<Text>,
    value: Text,
)
    ensures
        args == seq!["--copt="@ + value] || args == seq!["--copt"@, value] ==> options_from(
            args,
            0,
            o,
            active,
        ) == Some((BazelCompatBazelrcOptionsModel { copt: o.copt.push(value), ..o }, active)),
        args == seq!["--conlyopt="@ + value] || args == seq!["--conlyopt"@, value] ==> options_from(
            args,
            0,
            o,
            active,
        ) == Some(
            (BazelCompatBazelrcOptionsModel { conlyopt: o.conlyopt.push(value), ..o }, active),
        ),
        args == seq!["--cxxopt="@ + value] || args == seq!["--cxxopt"@, value] ==> options_from(
            args,
            0,
            o,
            active,
        ) == Some((BazelCompatBazelrcOptionsModel { cxxopt: o.cxxopt.push(value), ..o }, active)),
        args == seq!["--host_copt="@ + value] || args == seq!["--host_copt"@, value]
            ==> options_from(args, 0, o, active) == Some(
            (BazelCompatBazelrcOptionsModel { host_copt: o.host_copt.push(value), ..o }, active),
        ),
        args == seq!["--host_conlyopt="@ + value] || args == seq!["--host_conlyopt"@, value]
            ==> options_from(args, 0, o, active) == Some(
            (
                BazelCompatBazelrcOptionsModel { host_conlyopt: o.host_conlyopt.push(value), ..o },
                active,
            ),
        ),
        args == seq!["--host_cxxopt="@ + value] || args == seq!["--host_cxxopt"@, value]
            ==> options_from(args, 0, o, active) == Some(
            (
                BazelCompatBazelrcOptionsModel { host_cxxopt: o.host_cxxopt.push(value), ..o },
                active,
            ),
        ),
        args == seq!["--per_file_copt="@ + value] || args == seq!["--per_file_copt"@, value]
            ==> options_from(args, 0, o, active) == Some(
            (
                BazelCompatBazelrcOptionsModel { per_file_copt: o.per_file_copt.push(value), ..o },
                active,
            ),
        ),
        args == seq!["--macos_minimum_os="@ + value] || args == seq!["--macos_minimum_os"@, value]
            ==> options_from(args, 0, o, active) == Some(
            (
                BazelCompatBazelrcOptionsModel {
                    macos_minimum_os: o.macos_minimum_os.push(value),
                    ..o
                },
                active,
            ),
        ),
        args == seq!["--host_macos_minimum_os="@ + value] || args == seq![
            "--host_macos_minimum_os"@,
            value,
        ] ==> options_from(args, 0, o, active) == Some(
            (
                BazelCompatBazelrcOptionsModel {
                    host_macos_minimum_os: o.host_macos_minimum_os.push(value),
                    ..o
                },
                active,
            ),
        ),
{
    reveal_strlit("=");
    reveal_strlit("--copt");
    reveal_strlit("--copt=");
    reveal_strlit("--conlyopt");
    reveal_strlit("--conlyopt=");
    reveal_strlit("--cxxopt");
    reveal_strlit("--cxxopt=");
    reveal_strlit("--host_copt");
    reveal_strlit("--host_copt=");
    reveal_strlit("--host_conlyopt");
    reveal_strlit("--host_conlyopt=");
    reveal_strlit("--host_cxxopt");
    reveal_strlit("--host_cxxopt=");
    reveal_strlit("--per_file_copt");
    reveal_strlit("--per_file_copt=");
    reveal_strlit("--macos_minimum_os");
    reveal_strlit("--macos_minimum_os=");
    reveal_strlit("--host_macos_minimum_os");
    reveal_strlit("--host_macos_minimum_os=");
    assert("--copt"@ + "="@ =~= "--copt="@);
    assert("--conlyopt"@ + "="@ =~= "--conlyopt="@);
    assert("--cxxopt"@ + "="@ =~= "--cxxopt="@);
    assert("--host_copt"@ + "="@ =~= "--host_copt="@);
    assert("--host_conlyopt"@ + "="@ =~= "--host_conlyopt="@);
    assert("--host_cxxopt"@ + "="@ =~= "--host_cxxopt="@);
    assert("--per_file_copt"@ + "="@ =~= "--per_file_copt="@);
    assert("--macos_minimum_os"@ + "="@ =~= "--macos_minimum_os="@);
    assert("--host_macos_minimum_os"@ + "="@ =~= "--host_macos_minimum_os="@);
    assert forall|k: int|
        0 <= k < 9 && (args == seq![option_name(k) + "="@ + value] || args == seq![
            option_name(k),
            value,
        ]) implies options_from(args, 0, o, active) == Some(
        (#[trigger] with_option(o, k, value), active),
    ) by {
        lemma_option_collected(args, o, active, k, value);
    }
    assert(with_option(o, 0, value).copt == o.copt.push(value));
    assert(with_option(o, 1, value).conlyopt == o.conlyopt.push(value));
    assert(with_option(o, 2, value).cxxopt == o.cxxopt.push(value));
    assert(with_option(o, 3, value).host_copt == o.host_copt.push(value));
    assert(with_option(o, 4, value).host_conlyopt == o.host_conlyopt.push(value));
    assert(with_option(o, 5, value).host_cxxopt == o.host_cxxopt.push(value));
    assert(with_option(o, 6, value).per_file_copt == o.per_file_copt.push(value));
    assert(with_option(o, 7, value).macos_minimum_os == o.macos_minimum_os.push(value));
    assert(with_option(o, 8, value).host_macos_minimum_os == o.host_macos_minimum_os.push(value));
}

/// A line for `build` or `common` counts for every build; one for a configuration of these
/// counts where the configuration is active; and a line for any other command never does.
pub proof fn law_lines_that_count(command: Text, config: Text, args: Seq<Text>, active: Seq<Text>)
    requires
        !command.contains(':'),
    ensures
        record_applies(BazelrcRecordModel { command, args }, active) <==> command == "build"@
            || command == "common"@,
        config.len() > 0 ==> (record_applies(
            BazelrcRecordModel { command: command + ":"@ + config, args },
            active,
        ) <==> (command == "build"@ || command == "common"@) && active.contains(config)),
{
    reveal_strlit(":");
    assert(":"@ =~= seq![':']);
    lemma_split_at_char(command, ':', config);
}

proof fn lemma_plain_word(line: Text, i: int, n: int, w: Words)
    requires
        0 <= i <= n <= line.len(),
        w.quote is None,
        !w.escaped,
        forall|j: int|
            i <= j < n ==> !is_whitespace(#[trigger] line[j]) && line[j] != '#' && line[j] != '\''
                && line[j] != '"' && line[j] != '\\',
    ensures
        words_from(line, i, w) == words_from(
            line,
            n,
            Words { word: w.word + line.subrange(i, n), ..w },
        ),
    decreases n - i,
{
    if i < n {
        let next = Words { word: w.word.push(line[i]), ..w };
        assert(line[i] != '#');
        lemma_plain_word(line, i + 1, n, next);
        assert(next.word + line.subrange(i + 1, n) =~= w.word + line.subrange(i, n));
    } else {
        assert(w.word + line.subrange(i, n) =~= w.word);
    }
}

proof fn lemma_words_shift(line: Text, rest: Text, i: int, k: int, w: Words, before: Seq<Text>)
    requires
        0 <= i <= line.len(),
        k + i >= 0,
        line.skip(i) == rest.skip(i + k),
        0 <= i + k <= rest.len(),
    ensures
        words_from(line, i, Words { words: before + w.words, ..w }) == before + words_from(
            rest,
            i + k,
            w,
        ),
    decreases line.len() - i,
{
    let moved = Words { words: before + w.words, ..w };
    assert(line.skip(i).len() == line.len() - i);
    assert(rest.skip(i + k).len() == rest.len() - (i + k));
    if i < line.len() {
        assert(line[i] == line.skip(i)[0] && rest[i + k] == rest.skip(i + k)[0]);
        let c = line[i];
        if !(c == '#' && !w.escaped && w.quote is None) {
            assert(line.skip(i + 1) =~= line.skip(i).skip(1));
            assert(rest.skip(i + k + 1) =~= rest.skip(i + k).skip(1));
            assert(with_word(before + w.words, w.word) =~= before + with_word(w.words, w.word));
            let next = word_step(w, c);
            assert(word_step(moved, c) == (Words { words: before + next.words, ..next }));
            lemma_words_shift(line, rest, i + 1, k, next, before);
        } else {
            assert(with_word(before + w.words, w.word) =~= before + with_word(w.words, w.word));
        }
    } else {
        assert(with_word(before + w.words, w.word) =~= before + with_word(w.words, w.word));
    }
}

/// The words of a line are those between its spaces: a plain word before a space is the
/// first, and the words of what follows are the others. A word alone is the only one, a
/// `#` ends the line, and quotes hold a word together.
pub proof fn law_words_of_line(word: Text, space: char, rest: Text, quote: char, quoted: Text)
    requires
        word.len() > 0,
        forall|j: int|
            0 <= j < word.len() ==> !is_whitespace(#[trigger] word[j]) && word[j] != '#' && word[j]
                != '\'' && word[j] != '"' && word[j] != '\\',
        is_whitespace(space),
        quote == '"' || quote == '\'',
        quoted.len() > 0,
        forall|j: int| 0 <= j < quoted.len() ==> #[trigger] quoted[j] != quote && quoted[j] != '\\',
    ensures
        words(word + seq![space] + rest) == seq![word] + words(rest),
        words(word) == seq![word],
        words(seq!['#'] + rest) == Seq::<Text>::empty(),
        words(seq![quote] + quoted + seq![quote]) == seq![quoted],
{
    let start = Words { words: seq![], word: seq![], quote: None, escaped: false };
    let n = word.len() as int;
    let line = word + seq![space] + rest;
    assert forall|j: int| 0 <= j < n implies !is_whitespace(#[trigger] line[j]) && line[j] != '#'
        && line[j] != '\'' && line[j] != '"' && line[j] != '\\' by {
        assert(line[j] == word[j]);
    }
    lemma_plain_word(line, 0, n, start);
    assert(start.word + line.subrange(0, n) =~= word);
    assert(line[n] == space);
    let held = Words { word, ..start };
    assert(word_step(held, space) == (Words { words: seq![word] + start.words, ..start })) by {
        assert(with_word(held.words, held.word) =~= seq![word] + start.words);
    }
    assert(line.skip(n + 1) =~= rest.skip(0));
    lemma_words_shift(line, rest, n + 1, -(n + 1), start, seq![word]);
    lemma_plain_word(word, 0, n, start);
    assert(start.word + word.subrange(0, n) =~= word);
    assert(with_word(start.words, word) =~= seq![word]);
    assert((seq!['#'] + rest)[0] == '#');
    assert(with_word(start.words, start.word) =~= Seq::<Text>::empty());
    let q = seq![quote] + quoted + seq![quote];
    let m = 1 + quoted.len() as int;
    let opened = Words { quote: Some(quote), ..start };
    assert(q[0] == quote);
    assert(word_step(start, quote) == opened);
    lemma_quoted_word(q, 1, m, opened, quote);
    assert(opened.word + q.subrange(1, m) =~= quoted);
    assert(q[m] == quote);
    assert(with_word(start.words, quoted) =~= seq![quoted]);
    reveal_with_fuel(words_from, 3);
}

proof fn lemma_quoted_word(line: Text, i: int, n: int, w: Words, quote: char)
    requires
        0 <= i <= n <= line.len(),
        w.quote == Some(quote),
        !w.escaped,
        forall|j: int| i <= j < n ==> #[trigger] line[j] != quote && line[j] != '\\',
    ensures
        words_from(line, i, w) == words_from(
            line,
            n,
            Words { word: w.word + line.subrange(i, n), ..w },
        ),
    decreases n - i,
{
    if i < n {
        let next = Words { word: w.word.push(line[i]), ..w };
        lemma_quoted_word(line, i + 1, n, next, quote);
        assert(next.word + line.subrange(i + 1, n) =~= w.word + line.subrange(i, n));
    } else {
        assert(w.word + line.subrange(i, n) =~= w.word);
    }
}

/// An option that is known by its name gives a setting of that name, with the value behind
/// `=` or in the next argument: a text, or an entry of a list for an option that may come
/// more than once.
pub proof fn law_native_option(args: Seq<Text>, i: int, name: Text, value: Text)
    requires
        0 <= i < args.len(),
        ({
            ||| name == "cpu"@ || name == "host_cpu"@ || name == "java_language_version"@
            ||| name == "tool_java_language_version"@ || name == "java_runtime_version"@
            ||| name == "tool_java_runtime_version"@
            ||| name == "experimental_one_version_enforcement"@
            ||| name == "javacopt"@ || name == "host_javacopt"@
        }),
    ensures
        ({
            let kind = if name == "javacopt"@ || name == "host_javacopt"@ {
                "list\t"@
            } else {
                "string\t"@
            };
            let setting = kind + "//command_line_option:"@ + name + "\t"@ + value;
            &&& args[i] == "--"@ + name + "="@ + value ==> build_setting(args, i) == (
                Some(seq![setting]),
                i,
            )
            &&& args[i] == "--"@ + name && i + 1 < args.len() && args[i + 1] == value
                ==> build_setting(args, i) == (Some(seq![setting]), i + 1)
        }),
{
    reveal_strlit("cpu");
    reveal_strlit("host_cpu");
    reveal_strlit("java_language_version");
    reveal_strlit("tool_java_language_version");
    reveal_strlit("java_runtime_version");
    reveal_strlit("tool_java_runtime_version");
    reveal_strlit("experimental_one_version_enforcement");
    reveal_strlit("javacopt");
    reveal_strlit("host_javacopt");
    reveal_strlit("platforms");
    reveal_strlit("=");
    reveal_strlit("--");
    reveal_strlit("no");
    reveal_strlit("@");
    reveal_strlit(":");
    reveal_strlit("//");
    reveal_strlit("\t");
    reveal_strlit("list");
    reveal_strlit("list\t");
    reveal_strlit("string");
    reveal_strlit("string\t");
    assert("="@ =~= seq!['=']);
    let c = name[0];
    assert(c == 'c' || c == 'h' || c == 'j' || c == 't' || c == 'e');
    assert(!name.contains('='));
    let key = "//command_line_option:"@ + name;
    let assigned = name + "="@ + value;
    lemma_split_at_char(name, '=', value);
    lemma_strip_put_prefix("--"@, name);
    lemma_strip_put_prefix("--"@, assigned);
    assert("--"@ + name + "="@ + value =~= "--"@ + assigned);
    assert(assigned[0] == c);
    lemma_plain_option(name);
    lemma_plain_option(assigned);
    assert(name != "platforms"@) by {
        assert("platforms"@[0] == 'p');
    }
    assert(setting_text("list"@, key, value) =~= "list\t"@ + "//command_line_option:"@ + name
        + "\t"@ + value);
    assert(setting_text("string"@, key, value) =~= "string\t"@ + "//command_line_option:"@ + name
        + "\t"@ + value);
    if name == "javacopt"@ || name == "host_javacopt"@ {
        assert(name.len() == 8 || name.len() == 13);
    } else {
        assert(name.len() != 8 || c != 'j');
        assert(name.len() != 13);
        assert(name != "javacopt"@ && name != "host_javacopt"@);
    }
}

proof fn lemma_plain_option(option: Text)
    requires
        option.len() > 0,
        option[0] != '@' && option[0] != ':' && option[0] != '/' && option[0] != 'n',
    ensures
        !label_key(option),
        strip_prefix(option, "no"@) is None,
{
    reveal_strlit("no");
    reveal_strlit("@");
    reveal_strlit(":");
    reveal_strlit("//");
    if occurs_at(option, "@"@, 0) {
        assert(option.subrange(0, 1)[0] == option[0]);
    }
    if occurs_at(option, ":"@, 0) {
        assert(option.subrange(0, 1)[0] == option[0]);
    }
    if occurs_at(option, "//"@, 0) {
        assert(option.subrange(0, 2)[0] == option[0]);
    }
    if "no"@.is_prefix_of(option) {
        assert(option.subrange(0, 2)[0] == option[0]);
    }
}

proof fn lemma_configs_settled(args: Seq<Text>, i: int, active: Seq<Text>, config: Text)
    requires
        0 <= i,
        sorted_set::<String>(active),
        !configs_from(args, i, active, false).1,
        forall|j: int| i <= j < args.len() ==> #[trigger] args[j] != "--config"@,
    ensures
        configs_from(args, i, active, false).0 == active,
        forall|j: int|
            i <= j < args.len() && #[trigger] args[j] == "--config="@ + config ==> active.contains(
                config,
            ),
    decreases args.len() - i,
{
    reveal_strlit("--config");
    reveal_strlit("--config=");
    reveal_strlit("=");
    assert("--config"@ + "="@ =~= "--config="@);
    if i < args.len() {
        assert(args[i] != "--config"@);
        lemma_strip_put_prefix("--config="@, config);
        match option_value(args, i, "--config"@) {
            (Some(value), j) => {
                assert(j == i);
                if !active.contains(value) {
                    lemma_configs_changed(args, i + 1, set_put::<String>(active, value));
                } else {
                    lemma_set_put_len(active, value);
                    lemma_configs_settled(args, i + 1, active, config);
                }
            },
            (None, j) => {
                lemma_configs_settled(args, i + 1, active, config);
            },
        }
    }
}

proof fn lemma_configs_changed(args: Seq<Text>, i: int, active: Seq<Text>)
    requires
        0 <= i,
    ensures
        configs_from(args, i, active, true).1,
    decreases args.len() + 1 - i,
{
    if i < args.len() {
        let (value, j) = option_value(args, i, "--config"@);
        match value {
            Some(config) => lemma_configs_changed(args, j + 1, set_put::<String>(active, config)),
            None => lemma_configs_changed(args, j + 1, active),
        }
    }
}

proof fn lemma_pass_changed(records: Seq<BazelrcRecordModel>, i: int, active: Seq<Text>)
    requires
        0 <= i,
    ensures
        configs_pass(records, i, active, true).1,
    decreases records.len() - i,
{
    if i < records.len() {
        if record_applies(records[i], active) {
            let (next, new) = configs_from(records[i].args, 0, active, false);
            lemma_pass_changed(records, i + 1, next);
        } else {
            lemma_pass_changed(records, i + 1, active);
        }
    }
}

proof fn lemma_pass_settled(
    records: Seq<BazelrcRecordModel>,
    i: int,
    active: Seq<Text>,
    r: int,
    config: Text,
)
    requires
        0 <= i,
        sorted_set::<String>(active),
        !configs_pass(records, i, active, false).1,
        forall|k: int, j: int|
            0 <= k < records.len() && 0 <= j < records[k].args.len()
                ==> #[trigger] records[k].args[j] != "--config"@,
    ensures
        configs_pass(records, i, active, false).0 == active,
        i <= r < records.len() && record_applies(records[r], active) ==> forall|j: int|
            0 <= j < records[r].args.len() && #[trigger] records[r].args[j] == "--config="@ + config
                ==> active.contains(config),
    decreases records.len() - i,
{
    if i < records.len() {
        if record_applies(records[i], active) {
            let args = records[i].args;
            let (next, new) = configs_from(args, 0, active, false);
            if new {
                lemma_pass_changed(records, i + 1, next);
            }
            assert forall|j: int| 0 <= j < args.len() implies #[trigger] args[j]
                != "--config"@ by {
                assert(records[i].args[j] != "--config"@);
            }
            lemma_configs_settled(args, 0, active, config);
            lemma_pass_settled(records, i + 1, active, r, config);
        } else {
            lemma_pass_settled(records, i + 1, active, r, config);
        }
    }
}

/// The active configurations are complete: where a line that counts asks for one by
/// `--config=`, it is active.
pub proof fn law_configs_complete(
    records: Seq<BazelrcRecordModel>,
    active: Seq<Text>,
    r: int,
    j: int,
    config: Text,
)
    requires
        sorted_set::<String>(active),
        0 <= r < records.len(),
        0 <= j < records[r].args.len(),
        records[r].args[j] == "--config="@ + config,
        record_applies(records[r], active_configs(records, active)),
        forall|k: int, j: int|
            0 <= k < records.len() && 0 <= j < records[k].args.len()
                ==> #[trigger] records[k].args[j] != "--config"@,
    ensures
        active_configs(records, active).contains(config),
    decreases missing(candidates(records), active),
{
    let (next, changed) = configs_pass(records, 0, active, false);
    lemma_configs_pass(records, 0, active, false);
    if changed {
        lemma_pass_sorted(records, 0, active, false);
        law_configs_complete(records, next, r, j, config);
    } else {
        lemma_pass_settled(records, 0, active, r, config);
    }
}

proof fn lemma_configs_sorted(args: Seq<Text>, i: int, active: Seq<Text>, changed: bool)
    requires
        0 <= i,
        sorted_set::<String>(active),
    ensures
        sorted_set::<String>(configs_from(args, i, active, changed).0),
    decreases args.len() + 1 - i,
{
    if i < args.len() {
        let (value, j) = option_value(args, i, "--config"@);
        match value {
            Some(config) => {
                law_set_put_sorted::<String>(active, config);
                lemma_configs_sorted(
                    args,
                    j + 1,
                    set_put::<String>(active, config),
                    changed || !active.contains(config),
                );
            },
            None => lemma_configs_sorted(args, j + 1, active, changed),
        }
    }
}

proof fn lemma_pass_sorted(
    records: Seq<BazelrcRecordModel>,
    i: int,
    active: Seq<Text>,
    changed: bool,
)
    requires
        0 <= i,
        sorted_set::<String>(active),
    ensures
        sorted_set::<String>(configs_pass(records, i, active, changed).0),
    decreases records.len() - i,
{
    if i < records.len() {
        if record_applies(records[i], active) {
            lemma_configs_sorted(records[i].args, 0, active, false);
            let (next, new) = configs_from(records[i].args, 0, active, false);
            lemma_pass_sorted(records, i + 1, next, changed || new);
        } else {
            lemma_pass_sorted(records, i + 1, active, changed);
        }
    }
}

/// The last switch of the host's configuration in a line decides, and a line without one
/// leaves it as it was.
pub proof fn law_platform_switch(args: Seq<Text>, before: bool, k: int)
    requires
        -1 <= k < args.len(),
        forall|j: int|
            k < j < args.len() ==> #[trigger] args[j] != "--enable_platform_specific_config"@
                && args[j] != "--enable_platform_specific_config=true"@ && args[j]
                != "--noenable_platform_specific_config"@ && args[j]
                != "--enable_platform_specific_config=false"@,
    ensures
        k == -1 ==> platform_in_args(args, before) == before,
        k >= 0 && (args[k] == "--enable_platform_specific_config"@ || args[k]
            == "--enable_platform_specific_config=true"@) ==> platform_in_args(args, before),
        k >= 0 && (args[k] == "--noenable_platform_specific_config"@ || args[k]
            == "--enable_platform_specific_config=false"@) ==> !platform_in_args(args, before),
    decreases args.len(),
{
    reveal_strlit("--enable_platform_specific_config");
    reveal_strlit("--enable_platform_specific_config=true");
    reveal_strlit("--noenable_platform_specific_config");
    reveal_strlit("--enable_platform_specific_config=false");
    assert("--noenable_platform_specific_config"@[2] == 'n');
    assert("--enable_platform_specific_config"@.len() != "--enable_platform_specific_config=false"@.len());
    assert("--enable_platform_specific_config=true"@.len()
        != "--enable_platform_specific_config=false"@.len());
    if args.len() > 0 {
        assert(args.last() == args[args.len() - 1]);
        if k < args.len() - 1 {
            let init = args.drop_last();
            assert forall|j: int| k < j < init.len() implies #[trigger] init[j]
                != "--enable_platform_specific_config"@ && init[j]
                != "--enable_platform_specific_config=true"@ && init[j]
                != "--noenable_platform_specific_config"@ && init[j]
                != "--enable_platform_specific_config=false"@ by {
                assert(init[j] == args[j]);
            }
            law_platform_switch(init, before, k);
            if k >= 0 {
                assert(init[k] == args[k]);
            }
        }
    }
}

/// The options are those of the lines that count, in their order; a line that does not
/// count leaves no trace.
pub proof fn law_lines_collected(
    records: Seq<BazelrcRecordModel>,
    i: int,
    o: BazelCompatBazelrcOptionsModel,
    active: Seq<Text>,
)
    requires
        0 <= i < records.len(),
    ensures
        !record_applies(records[i], active) ==> collected(records, i, o, active) == collected(
            records,
            i + 1,
            o,
            active,
        ),
        record_applies(records[i], active) ==> (options_from(
            records[i].args,
            0,
            o,
            active,
        ) matches Some((next, more)) ==> collected(records, i, o, active) == collected(
            records,
            i + 1,
            next,
            more,
        )),
        (forall|j: int|
            i <= j < records.len() ==> !record_applies(#[trigger] records[j], active))
            ==> collected(records, i, o, active) == Some(o),
    decreases records.len() - i,
{
    if i + 1 < records.len() {
        law_lines_collected(records, i + 1, o, active);
    }
}

/// The host's own configuration is active from the start exactly where a line for every
/// build switches that on.
pub proof fn law_host_configuration(records: Seq<BazelrcRecordModel>, host: Text)
    requires
        host.len() > 0,
    ensures
        platform_enabled(records) <==> first_configs(records, host).contains(host),
        !platform_enabled(records) ==> first_configs(records, host).len() == 0,
        !platform_enabled(seq![]),
{
    law_set_put_contains::<String>(seq![], host, host);
}

/// The platforms of one argument are each a setting of their own, in order and without the
/// spaces around them; a blank one is none.
pub proof fn law_platforms_option(key: Text, first: Text, rest: Text)
    requires
        !first.contains(','),
    ensures
        list_settings("platforms"@, key, first + ","@ + rest) == (if trim(first).len() == 0 {
            seq![]
        } else {
            seq!["list\t"@ + key + "\t"@ + trim(first)]
        }) + list_settings("platforms"@, key, rest),
        list_settings("platforms"@, key, first) == (if trim(first).len() == 0 {
            Seq::<Text>::empty()
        } else {
            seq!["list\t"@ + key + "\t"@ + trim(first)]
        }),
{
    reveal_strlit(",");
    reveal_strlit("list");
    reveal_strlit("list\t");
    reveal_strlit("\t");
    assert(","@ =~= seq![',']);
    law_split(first, ',', rest);
    assert(setting_text("list"@, key, trim(first)) =~= "list\t"@ + key + "\t"@ + trim(first));
    lemma_part_settings(key, seq![first], split(rest, ','));
    lemma_part_alone(key, first);
}

proof fn lemma_part_alone(key: Text, part: Text)
    ensures
        part_settings(key, seq![part]) == (if trim(part).len() == 0 {
            Seq::<Text>::empty()
        } else {
            seq![setting_text("list"@, key, trim(part))]
        }),
{
    let parts = seq![part];
    assert(parts.drop_last() =~= seq![]);
    assert(parts.last() == part);
    assert(part_settings(key, parts.drop_last()) =~= Seq::<Text>::empty());
    assert(Seq::<Text>::empty().push(setting_text("list"@, key, trim(part))) =~= seq![
        setting_text("list"@, key, trim(part)),
    ]);
}

proof fn lemma_part_settings(key: Text, a: Seq<Text>, b: Seq<Text>)
    ensures
        part_settings(key, a + b) == part_settings(key, a) + part_settings(key, b),
    decreases b.len(),
{
    if b.len() == 0 {
        assert(a + b =~= a);
        assert(part_settings(key, a) + part_settings(key, b) =~= part_settings(key, a));
    } else {
        lemma_part_settings(key, a, b.drop_last());
        assert((a + b).drop_last() =~= a + b.drop_last());
        assert((a + b).last() == b.last());
        assert(part_settings(key, a + b) =~= part_settings(key, a) + part_settings(key, b));
    }
}

} // verus!
