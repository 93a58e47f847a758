//! Modules as their module files describe them, and where those files come from.

use vstd::prelude::*;
use vstd::string::*;
use vstd::utf8::*;
use crate::blocks::{
    assignments, bzlmod_module_constants_from_lines, call_texts, calls, collect_bzl_calls,
    constants_of,
};
use crate::calls::{bool_arg, bzl_call_args, bzl_string_value};
use crate::digest::{hex_of, hex_text, sha256, sha256_hex};
use crate::module::{
    BazelDep, BazelDepModel, BcrSourceJson, BcrSourceJsonModel, BzlmodArchiveOverride,
    BzlmodArchiveOverrideModel, BzlmodLocalPathOverride, BzlmodModuleLockfileData,
    BzlmodModuleLockfileDataModel, BzlmodUseRepoRuleInvocationModel, DiscoveredBcrModule,
    DiscoveredBcrModuleModel, InputError,
};
use crate::module_file::{
    aliases_of, bzlmod_deps_from_lines, bzlmod_module_aliases, deps_of, law_dev_dependencies,
};
use crate::module_rules::{
    bzlmod_registered_toolchains_from_lines, bzlmod_use_repo_aliases_from_usages,
    bzlmod_use_repo_rule_invocations_from_lines, lines_error, registered_toolchains,
    repo_rule_invocations, usage_aliases, validate_bzlmod_module_lines,
};
use crate::module_usages::{bzlmod_extension_usages_from_lines, extension_usages};
use crate::ordered::{
    Duplicate, KeyMap, KeySet, law_lookup_after_put, law_put_sorted, lookup, put, result_view,
    set_put_all, sort_and_dedup, sorted_items, sorted_set_of,
};
use crate::scan::{call_args, string_value};
use crate::text::{
    Text, char_is_ascii_alphanumeric, char_is_whitespace, chars_of, concat, concat3, decimal,
    is_ascii_alphanumeric, is_whitespace, join, join_of, lemma_rfind_from, lemma_strip_put_prefix,
    lines, lines_of, nat_text, occurs_at, rfind, rsplit_once, rsplit_once_of, starts_with,
    strip_prefix, strip_prefix_of, text_between, trim, trim_of,
};

verus! {

/// A module as its module file describes it; `file` names the file in messages.
pub open spec fn discovered_module(
    dep: BazelDepModel,
    source_json: BcrSourceJsonModel,
    file: Text,
    lines: Seq<Text>,
) -> Result<DiscoveredBcrModuleModel, Text> {
    let constants = constants_of(assignments(lines, 0));
    let extension_usages = extension_usages(lines, constants, true);
    match lines_error(file, lines, 0) {
        Some(message) => Err(message),
        None => match repo_rule_invocations(lines, constants, true) {
            Err(message) => Err(message),
            Ok(use_repo_rule_invocations) => Ok(
                DiscoveredBcrModuleModel {
                    dep,
                    source_json,
                    module_aliases: aliases_of(call_texts(calls(lines, "module("@, 0))),
                    use_repo_aliases: usage_aliases(extension_usages),
                    extension_usages,
                    use_repo_rule_invocations,
                    constants,
                    registered_toolchains: registered_toolchains(lines, true),
                    deps: deps_of(call_texts(calls(lines, "bazel_dep("@, 0)), true),
                },
            ),
        },
    }
}

fn discover_module(
    dep: BazelDep,
    source_json: BcrSourceJson,
    file: &str,
    module_text: &str,
) -> (r: Result<DiscoveredBcrModule, InputError>)
    ensures
        result_view(r) == discovered_module(
            dep.deep_view(),
            source_json.deep_view(),
            file@,
            lines(module_text@),
        ),
{
    let lines = lines_of(module_text);
    match validate_bzlmod_module_lines(file, &lines) {
        Ok(_) => {},
        Err(e) => {
            return Err(e);
        },
    }
    let constants = bzlmod_module_constants_from_lines(&lines);
    let extension_usages = bzlmod_extension_usages_from_lines(&lines, &constants, true);
    let use_repo_rule_invocations = match bzlmod_use_repo_rule_invocations_from_lines(
        &lines,
        &constants,
        true,
    ) {
        Ok(found) => found,
        Err(e) => {
            return Err(e);
        },
    };
    Ok(
        DiscoveredBcrModule {
            dep,
            source_json,
            module_aliases: bzlmod_module_aliases(&lines),
            use_repo_aliases: bzlmod_use_repo_aliases_from_usages(&extension_usages),
            extension_usages,
            use_repo_rule_invocations,
            constants,
            registered_toolchains: bzlmod_registered_toolchains_from_lines(&lines, true),
            deps: bzlmod_deps_from_lines(&lines, true),
        },
    )
}

/// A module as its module file describes it.
pub fn parse_discovered_bzlmod_module(
    dep: BazelDep,
    source_json: BcrSourceJson,
    module_text: &str,
) -> (r: Result<DiscoveredBcrModule, InputError>)
    ensures
        result_view(r) == discovered_module(
            dep.deep_view(),
            source_json.deep_view(),
            dep.name@,
            lines(module_text@),
        ),
{
    let file = dep.name.clone();
    discover_module(dep, source_json, file.as_str(), module_text)
}

/// A source that says nothing.
pub open spec fn empty_source() -> BcrSourceJsonModel {
    BcrSourceJsonModel {
        url: seq![],
        urls: None,
        integrity: seq![],
        strip_prefix: None,
        archive_type: None,
        patches: None,
        overlay: None,
        patch_strip: None,
    }
}

/// A source that says nothing.
pub fn empty_bcr_source_json() -> (r: BcrSourceJson)
    ensures
        r.deep_view() == empty_source(),
{
    let url = String::new();
    let integrity = String::new();
    assert(url@ =~= seq![] && integrity@ =~= seq![]);
    BcrSourceJson {
        url,
        urls: None,
        integrity,
        strip_prefix: None,
        archive_type: None,
        patches: None,
        overlay: None,
        patch_strip: None,
    }
}

/// A module in a directory, as its module file describes it.
pub fn fetch_local_bzlmod_module(
    dep: BazelDep,
    local_path_override: &BzlmodLocalPathOverride,
) -> (r: Result<DiscoveredBcrModule, InputError>)
    ensures
        result_view(r) == discovered_module(
            dep.deep_view(),
            empty_source(),
            local_path_override.module_name@,
            lines(local_path_override.module_text@),
        ),
{
    discover_module(
        dep,
        empty_bcr_source_json(),
        local_path_override.module_name.as_str(),
        local_path_override.module_text.as_str(),
    )
}

/// The built-in tools as a dependency.
pub open spec fn builtin_dep() -> BazelDepModel {
    BazelDepModel {
        name: "bazel_tools"@,
        version: seq![],
        apparent_name: Some("bazel_tools"@),
    }
}

/// The built-in tools, as their module file describes them.
pub fn builtin_bazel_tools_module(module_tools: &str) -> (r: Result<
    DiscoveredBcrModule,
    InputError,
>)
    ensures
        result_view(r) == discovered_module(
            builtin_dep(),
            empty_source(),
            "bazel_tools"@,
            lines(module_tools@),
        ),
{
    let version = String::new();
    assert(version@ =~= seq![]);
    let dep = BazelDep {
        name: "bazel_tools".to_owned(),
        version,
        apparent_name: Some("bazel_tools".to_owned()),
    };
    discover_module(dep, empty_bcr_source_json(), "bazel_tools", module_tools)
}

/// The first URL of an archive.
pub fn bzlmod_archive_override_primary_url(archive_override: &BzlmodArchiveOverride) -> (r: &str)
    requires
        archive_override.deep_view().urls.len() > 0,
    ensures
        r@ == archive_override.deep_view().urls[0],
{
    assert(archive_override.deep_view().urls[0] == archive_override.urls@[0]@);
    archive_override.urls[0].as_str()
}

/// The source that an archive override stands for.
pub open spec fn archive_source(o: BzlmodArchiveOverrideModel) -> BcrSourceJsonModel {
    BcrSourceJsonModel {
        url: o.urls[0],
        urls: Some(o.urls),
        integrity: o.integrity,
        strip_prefix: o.strip_prefix,
        archive_type: o.archive_type,
        patches: None,
        overlay: None,
        patch_strip: o.patch_strip,
    }
}

/// The source that an archive override stands for.
pub fn bzlmod_archive_override_source_json(archive_override: &BzlmodArchiveOverride) -> (r:
    BcrSourceJson)
    requires
        archive_override.deep_view().urls.len() > 0,
    ensures
        r.deep_view() == archive_source(archive_override.deep_view()),
{
    BcrSourceJson {
        url: bzlmod_archive_override_primary_url(archive_override).to_owned(),
        urls: Some(archive_override.urls.duplicate()),
        integrity: archive_override.integrity.clone(),
        strip_prefix: archive_override.strip_prefix.duplicate(),
        archive_type: archive_override.archive_type.duplicate(),
        patches: None,
        overlay: None,
        patch_strip: archive_override.patch_strip,
    }
}

/// A field of a cache key: its length in bytes and its text, each before a zero
/// character.
pub open spec fn key_field(field: Text) -> Text {
    nat_text(encode_utf8(field).len()).push('\0') + field.push('\0')
}

/// The text that the cache key of a registry file is the digest of.
pub open spec fn cache_key_text(registry: Text, dep: BazelDepModel, kind: Text) -> Text {
    key_field("buck2-bzlmod-bcr-discovery-v1"@) + key_field(kind) + key_field(registry) + key_field(
        dep.name,
    ) + key_field(dep.version)
}

fn push_key_field(key: &mut String, field: &str)
    ensures
        final(key)@ == old(key)@ + key_field(field@),
{
    let ghost before = key@;
    let length: usize = field.as_bytes().len();
    key.append(decimal(length as u128).as_str());
    key.push('\0');
    key.append(field);
    key.push('\0');
    assert(key@ =~= before + key_field(field@));
}

/// The cache key of a registry file.
pub fn bzlmod_bcr_discovery_cache_key(registry: &str, dep: &BazelDep, kind: &str) -> (r: String)
    ensures
        r@ == hex_text(sha256(cache_key_text(registry@, dep.deep_view(), kind@))),
{
    let mut key = String::new();
    push_key_field(&mut key, "buck2-bzlmod-bcr-discovery-v1");
    assert(key@ =~= key_field("buck2-bzlmod-bcr-discovery-v1"@));
    push_key_field(&mut key, kind);
    push_key_field(&mut key, registry);
    push_key_field(&mut key, dep.name.as_str());
    push_key_field(&mut key, dep.version.as_str());
    sha256_hex(key.as_str())
}

/// The file that a registry file is kept in, from the project root.
pub fn bzlmod_bcr_discovery_cache_path(registry: &str, dep: &BazelDep, kind: &str) -> (r: String)
    ensures
        r@ == "buck-out/v2/cache/bzlmod_bcr_discovery/"@ + hex_text(
            sha256(cache_key_text(registry@, dep.deep_view(), kind@)),
        ) + "/"@ + kind@,
{
    let key = bzlmod_bcr_discovery_cache_key(registry, dep, kind);
    let mut path = concat3("buck-out/v2/cache/bzlmod_bcr_discovery/", key.as_str(), "/");
    path.append(kind);
    path
}

/// A character that a temporary name may have.
pub open spec fn temp_char(c: char) -> char {
    if is_ascii_alphanumeric(c) || c == '_' || c == '-' {
        c
    } else {
        '_'
    }
}

/// A name with every other character replaced by an underscore.
pub fn sanitize_bzlmod_temp_name(name: &str) -> (r: String)
    ensures
        r@ == Seq::new(name@.len(), |i: int| temp_char(name@[i])),
{
    let v = chars_of(name);
    let ghost target = Seq::new(name@.len(), |i: int| temp_char(name@[i]));
    let mut r = String::new();
    let mut i: usize = 0;
    while i < v.len()
        invariant
            v@ == name@,
            target == Seq::new(name@.len(), |i: int| temp_char(name@[i])),
            0 <= i <= v@.len(),
            r@ =~= target.take(i as int),
        decreases v.len() - i,
    {
        let c = v[i];
        if char_is_ascii_alphanumeric(c) || c == '_' || c == '-' {
            r.push(c);
        } else {
            r.push('_');
        }
        i += 1;
    }
    assert(target.take(i as int) =~= target);
    r
}

/// The content of a patch file of these lines.
pub open spec fn patch_content(lines: Seq<Text>) -> Text {
    if lines.len() == 0 {
        seq![]
    } else {
        join(lines, "\n"@) + "\n"@
    }
}

/// The content of a patch file of these lines.
pub fn root_patch_content(lines: &Vec<String>) -> (r: String)
    ensures
        r@ == patch_content(lines.deep_view()),
{
    assert(lines.deep_view().len() == lines@.len());
    if lines.len() == 0 {
        let none = String::new();
        assert(none@ =~= seq![]);
        none
    } else {
        concat(join_of(lines, "\n").as_str(), "\n")
    }
}

/// One of the lines starts the new file of a patch.
pub open spec fn has_new_file(chunk: Seq<Text>) -> bool {
    exists|i: int| 0 <= i < chunk.len() && "+++ "@.is_prefix_of(#[trigger] chunk[i])
}

/// A line that starts the part of a patch for another file.
pub open spec fn starts_chunk(line: Text, current: Seq<Text>) -> bool {
    "diff --git "@.is_prefix_of(line) || ("--- "@.is_prefix_of(line) && has_new_file(current))
}

/// The parts of a patch, one for each file, from line `i` on.
pub open spec fn patch_chunks(
    lines: Seq<Text>,
    i: int,
    current: Seq<Text>,
    done: Seq<Seq<Text>>,
) -> Seq<Seq<Text>>
    decreases lines.len() - i,
{
    if i < 0 || i >= lines.len() {
        if current.len() == 0 {
            done
        } else {
            done.push(current)
        }
    } else if starts_chunk(lines[i], current) && current.len() > 0 {
        patch_chunks(lines, i + 1, seq![lines[i]], done.push(current))
    } else {
        patch_chunks(lines, i + 1, current.push(lines[i]), done)
    }
}

fn has_new_file_line(chunk: &Vec<String>) -> (r: bool)
    ensures
        r == has_new_file(chunk.deep_view()),
{
    let ghost model = chunk.deep_view();
    let mut i: usize = 0;
    while i < chunk.len()
        invariant
            model == chunk.deep_view(),
            0 <= i <= chunk@.len(),
            forall|j: int| 0 <= j < i ==> !"+++ "@.is_prefix_of(#[trigger] model[j]),
        decreases chunk.len() - i,
    {
        assert(model[i as int] == chunk@[i as int]@);
        if starts_with(chunk[i].as_str(), "+++ ") {
            return true;
        }
        i += 1;
    }
    false
}

/// The parts of a patch, one for each file.
pub fn split_patch_chunks(patch_content: &str) -> (r: Vec<Vec<String>>)
    ensures
        r.deep_view() == patch_chunks(lines(patch_content@), 0, seq![], seq![]),
{
    let found = lines_of(patch_content);
    let ghost model = found.deep_view();
    let mut current: Vec<String> = Vec::new();
    let mut done: Vec<Vec<String>> = Vec::new();
    let mut i: usize = 0;
    assert(current.deep_view() =~= seq![]);
    assert(done.deep_view() =~= seq![]);
    while i < found.len()
        invariant
            model == found.deep_view(),
            0 <= i <= found@.len(),
            patch_chunks(model, 0, seq![], seq![]) == patch_chunks(
                model,
                i as int,
                current.deep_view(),
                done.deep_view(),
            ),
        decreases found.len() - i,
    {
        assert(model[i as int] == found@[i as int]@);
        assert(current.deep_view().len() == current@.len());
        let line = found[i].as_str();
        let starts = starts_with(line, "diff --git ") || (starts_with(line, "--- ")
            && has_new_file_line(&current));
        if starts && current.len() > 0 {
            let ghost before = done.deep_view();
            let ghost g = current.deep_view();
            done.push(current);
            assert(done.deep_view() =~= before.push(g));
            current = Vec::new();
            assert(current.deep_view() =~= seq![]);
        }
        let ghost so_far = current.deep_view();
        current.push(found[i].clone());
        assert(current.deep_view() =~= so_far.push(model[i as int]));
        assert(so_far.len() == 0 ==> current.deep_view() =~= seq![model[i as int]]);
        i += 1;
    }
    assert(current.deep_view().len() == current@.len());
    if current.len() > 0 {
        let ghost before = done.deep_view();
        let ghost g = current.deep_view();
        done.push(current);
        assert(done.deep_view() =~= before.push(g));
    }
    done
}

/// The end of the word that starts at `i`.
pub open spec fn word_end(s: Text, i: int) -> int
    decreases s.len() - i,
{
    if 0 <= i < s.len() && !is_whitespace(s[i]) {
        word_end(s, i + 1)
    } else {
        i
    }
}

proof fn lemma_word_end(s: Text, i: int)
    requires
        0 <= i <= s.len(),
    ensures
        i <= word_end(s, i) <= s.len(),
        i < s.len() && !is_whitespace(s[i]) ==> i < word_end(s, i),
    decreases s.len() - i,
{
    if i < s.len() && !is_whitespace(s[i]) {
        lemma_word_end(s, i + 1);
    }
}

/// The words of a text from `i` on: what stands between whitespace.
pub open spec fn words_from(s: Text, i: int) -> Seq<Text>
    decreases s.len() - i,
    when 0 <= i <= s.len()
    via words_from_decreases
{
    if i >= s.len() {
        seq![]
    } else if is_whitespace(s[i]) {
        words_from(s, i + 1)
    } else {
        seq![s.subrange(i, word_end(s, i))] + words_from(s, word_end(s, i))
    }
}

#[via_fn]
proof fn words_from_decreases(s: Text, i: int) {
    lemma_word_end(s, i);
}

/// The words of a text: what stands between whitespace.
pub fn words_of(s: &str) -> (r: Vec<String>)
    ensures
        r.deep_view() == words_from(s@, 0),
{
    let v = chars_of(s);
    let n: usize = v.len();
    let mut out: Vec<String> = Vec::new();
    let mut i: usize = 0;
    assert(out.deep_view() + words_from(s@, 0) =~= words_from(s@, 0));
    while i < n
        invariant
            v@ == s@,
            n == v@.len(),
            0 <= i <= n,
            out.deep_view() + words_from(s@, i as int) =~= words_from(s@, 0),
        decreases n - i,
    {
        if char_is_whitespace(v[i]) {
            i += 1;
            continue ;
        }
        let mut e: usize = i + 1;
        while e < n && !char_is_whitespace(v[e])
            invariant
                v@ == s@,
                n == v@.len(),
                i < e <= n,
                word_end(s@, i as int) == word_end(s@, e as int),
            decreases n - e,
        {
            e += 1;
        }
        let ghost before = out.deep_view();
        out.push(text_between(&v, i, e));
        proof {
            let word = s@.subrange(i as int, e as int);
            let rest = words_from(s@, e as int);
            assert(out.deep_view() =~= before.push(word));
            assert(before + (seq![word] + rest) =~= out.deep_view() + rest);
        }
        i = e;
    }
    assert(out.deep_view() + seq![] =~= out.deep_view());
    out
}

/// The paths that a line of a patch names.
pub open spec fn line_paths(line: Text) -> Seq<Text> {
    if "diff --git "@.is_prefix_of(line) {
        words_from(line.skip("diff --git "@.len() as int), 0)
    } else if "--- "@.is_prefix_of(line) {
        seq![line.skip("--- "@.len() as int)]
    } else if "+++ "@.is_prefix_of(line) {
        seq![line.skip("+++ "@.len() as int)]
    } else {
        seq![]
    }
}

/// The paths that the lines of a part of a patch name.
pub open spec fn chunk_paths(chunk: Seq<Text>) -> Seq<Text>
    decreases chunk.len(),
{
    if chunk.len() == 0 {
        seq![]
    } else {
        chunk_paths(chunk.drop_last()) + line_paths(chunk.last())
    }
}

/// The paths that the lines of a part of a patch name.
pub fn patch_chunk_paths(chunk: &Vec<String>) -> (r: Vec<String>)
    ensures
        r.deep_view() == chunk_paths(chunk.deep_view()),
{
    let ghost model = chunk.deep_view();
    let mut out: Vec<String> = Vec::new();
    let mut i: usize = 0;
    while i < chunk.len()
        invariant
            model == chunk.deep_view(),
            0 <= i <= chunk@.len(),
            out.deep_view() =~= chunk_paths(model.take(i as int)),
        decreases chunk.len() - i,
    {
        proof {
            let t = model.take(i + 1);
            assert(t.drop_last() =~= model.take(i as int));
            assert(t.last() == chunk@[i as int]@);
        }
        let ghost before = out.deep_view();
        let line = chunk[i].as_str();
        let mut more: Vec<String> = Vec::new();
        match strip_prefix_of(line, "diff --git ") {
            Some(rest) => {
                more = words_of(rest);
            },
            None => match strip_prefix_of(line, "--- ") {
                Some(rest) => {
                    more.push(rest.to_owned());
                },
                None => match strip_prefix_of(line, "+++ ") {
                    Some(rest) => {
                        more.push(rest.to_owned());
                    },
                    None => {},
                },
            },
        }
        assert(more.deep_view() =~= line_paths(line@));
        let ghost added = more.deep_view();
        out.append(&mut more);
        assert(out.deep_view() =~= before + added);
        i += 1;
    }
    assert(model.take(i as int) =~= model);
    out
}

/// The lines, each with its line ending.
pub open spec fn ended_lines(lines: Seq<Text>) -> Text
    decreases lines.len(),
{
    if lines.len() == 0 {
        seq![]
    } else {
        (ended_lines(lines.drop_last()) + lines.last()).push('\n')
    }
}

/// The message for an archive with another digest than expected.
pub open spec fn integrity_message(url: Text, expected: Seq<u8>, got: Seq<u8>) -> Text {
    "archive_override integrity mismatch for `"@ + url + "`: expected "@ + hex_text(expected)
        + ", got "@ + hex_text(got)
}

/// Checks the digest of an archive against the expected one.
pub fn verify_bzlmod_archive_digest(url: &str, expected: &Vec<u8>, got: &Vec<u8>) -> (r: Result<
    (),
    InputError,
>)
    ensures
        if expected@ == got@ {
            r is Ok
        } else {
            r matches Err(e) && e.deep_view() == integrity_message(url@, expected@, got@)
        },
{
    if same_bytes(expected, got) {
        return Ok(());
    }
    let mut message = concat3("archive_override integrity mismatch for `", url, "`: expected ");
    message.append(hex_of(expected).as_str());
    message.append(", got ");
    message.append(hex_of(got).as_str());
    Err(InputError { message })
}

fn same_bytes(a: &Vec<u8>, b: &Vec<u8>) -> (r: bool)
    ensures
        r == (a@ == b@),
{
    if a.len() != b.len() {
        return false;
    }
    let mut i: usize = 0;
    while i < a.len()
        invariant
            a@.len() == b@.len(),
            0 <= i <= a@.len(),
            forall|j: int| 0 <= j < i ==> a@[j] == b@[j],
        decreases a.len() - i,
    {
        if a[i] != b[i] {
            return false;
        }
        i += 1;
    }
    assert(a@ =~= b@);
    true
}

/// The string literals among the arguments.
pub open spec fn literal_args(args: Seq<Text>) -> Seq<Text>
    decreases args.len(),
{
    if args.len() == 0 {
        seq![]
    } else {
        let before = literal_args(args.drop_last());
        match string_value(trim(args.last())) {
            Some(value) => before.push(value),
            None => before,
        }
    }
}

/// The string literals among the arguments of the calls.
pub open spec fn call_literals(calls: Seq<Text>) -> Seq<Text>
    decreases calls.len(),
{
    if calls.len() == 0 {
        seq![]
    } else {
        call_literals(calls.drop_last()) + literal_args(call_args(calls.last()))
    }
}

/// The repositories that calls of a vendor file name, each once, in order.
pub fn bzlmod_vendor_repos_from_calls(lines: &Vec<String>, function: &str) -> (r: Vec<String>)
    ensures
        r.deep_view() == sorted_set_of::<String>(
            call_literals(call_texts(calls(lines.deep_view(), function@, 0))),
        ),
{
    let found = collect_bzl_calls(lines, function);
    let ghost model = found.deep_view();
    let mut out: Vec<String> = Vec::new();
    let mut i: usize = 0;
    while i < found.len()
        invariant
            model == found.deep_view(),
            0 <= i <= found@.len(),
            out.deep_view() =~= call_literals(model.take(i as int)),
        decreases found.len() - i,
    {
        proof {
            let t = model.take(i + 1);
            assert(t.drop_last() =~= model.take(i as int));
            assert(t.last() == found@[i as int]@);
        }
        let args = bzl_call_args(found[i].as_str());
        let ghost texts = args.deep_view();
        let ghost before = out.deep_view();
        let mut j: usize = 0;
        assert(before + seq![] =~= before);
        while j < args.len()
            invariant
                texts == args.deep_view(),
                0 <= j <= args@.len(),
                out.deep_view() =~= before + literal_args(texts.take(j as int)),
            decreases args.len() - j,
        {
            let ghost so_far = out.deep_view();
            proof {
                let t = texts.take(j + 1);
                assert(t.drop_last() =~= texts.take(j as int));
                assert(t.last() == args@[j as int]@);
            }
            match bzl_string_value(trim_of(args[j].as_str())) {
                Some(value) => {
                    let ghost g = value@;
                    out.push(value);
                    assert(out.deep_view() =~= so_far.push(g));
                },
                None => {},
            }
            j += 1;
        }
        assert(texts.take(j as int) =~= texts);
        i += 1;
    }
    assert(model.take(i as int) =~= model);
    sort_and_dedup(&out)
}

/// The names of generated repositories by extension, after those of the
/// evaluations from `i` on of one extension.
pub open spec fn with_evaluations(
    repos: Seq<(Text, Seq<Text>)>,
    extension: Text,
    evaluations: Seq<Seq<Text>>,
    i: int,
) -> Seq<(Text, Seq<Text>)>
    decreases evaluations.len() - i,
{
    if i < 0 || i >= evaluations.len() {
        repos
    } else {
        let own = match lookup(repos, extension) {
            Some(own) => own,
            None => seq![],
        };
        with_evaluations(
            put::<String, Seq<Text>>(
                repos,
                extension,
                set_put_all::<String>(own, evaluations[i], 0),
            ),
            extension,
            evaluations,
            i + 1,
        )
    }
}

/// The names of generated repositories by extension, after the extensions from
/// `i` on.
pub open spec fn locked_repos(
    extensions: Seq<(Text, Seq<Seq<Text>>)>,
    i: int,
    done: Seq<(Text, Seq<Text>)>,
) -> Seq<(Text, Seq<Text>)>
    decreases extensions.len() - i,
{
    if i < 0 || i >= extensions.len() {
        done
    } else {
        locked_repos(
            extensions,
            i + 1,
            with_evaluations(done, extensions[i].0, extensions[i].1, 0),
        )
    }
}

/// The yanked versions that the lockfile allows, from entry `i` on; an entry
/// without `@` says nothing.
pub open spec fn locked_yanked(items: Seq<(Text, Text)>, i: int, done: Seq<((Text, Text), Text)>) -> Seq<
    ((Text, Text), Text),
>
    decreases items.len() - i,
{
    if i < 0 || i >= items.len() {
        done
    } else {
        match rsplit_once(items[i].0, "@"@) {
            Some(key) => locked_yanked(
                items,
                i + 1,
                put::<(String, String), Text>(done, key, items[i].1),
            ),
            None => locked_yanked(items, i + 1, done),
        }
    }
}

fn add_evaluations(
    repos: &mut KeyMap<String, KeySet<String>>,
    extension: &String,
    evaluations: &Vec<Vec<String>>,
)
    ensures
        final(repos).deep_view() == with_evaluations(
            old(repos).deep_view(),
            extension@,
            evaluations.deep_view(),
            0,
        ),
{
    let ghost first = repos.deep_view();
    let ghost model = evaluations.deep_view();
    let mut i: usize = 0;
    while i < evaluations.len()
        invariant
            model == evaluations.deep_view(),
            0 <= i <= evaluations@.len(),
            with_evaluations(first, extension@, model, 0) == with_evaluations(
                repos.deep_view(),
                extension@,
                model,
                i as int,
            ),
        decreases evaluations.len() - i,
    {
        assert(model[i as int] == evaluations@[i as int].deep_view());
        let mut own = match repos.get(extension) {
            Some(own) => own.duplicate(),
            None => {
                let none: KeySet<String> = KeySet::new();
                assert(none.deep_view() =~= seq![]);
                none
            },
        };
        own.insert_all(&evaluations[i]);
        repos.insert(extension.clone(), own);
        i += 1;
    }
}

/// What a lockfile records, from its parts as they are written: the hashes of
/// registry files, the selected yanked versions, for each extension the
/// repositories of its evaluations, and the names of the facts.
pub fn bzlmod_lockfile_data(
    registry_file_hashes: KeyMap<String, Option<String>>,
    selected_yanked_versions: &Vec<(String, String)>,
    module_extensions: &Vec<(String, Vec<Vec<String>>)>,
    facts: &Vec<String>,
) -> (r: BzlmodModuleLockfileData)
    ensures
        r.deep_view() == (BzlmodModuleLockfileDataModel {
            registry_file_hashes: registry_file_hashes.deep_view(),
            selected_yanked_versions: locked_yanked(
                selected_yanked_versions.deep_view(),
                0,
                seq![],
            ),
            extension_generated_repos: locked_repos(module_extensions.deep_view(), 0, seq![]),
            extension_facts: set_put_all::<String>(seq![], facts.deep_view(), 0),
        }),
{
    let mut extension_generated_repos: KeyMap<String, KeySet<String>> = KeyMap::new();
    assert(extension_generated_repos.deep_view() =~= seq![]);
    let ghost extensions = module_extensions.deep_view();
    let mut i: usize = 0;
    while i < module_extensions.len()
        invariant
            extensions == module_extensions.deep_view(),
            0 <= i <= module_extensions@.len(),
            locked_repos(extensions, 0, seq![]) == locked_repos(
                extensions,
                i as int,
                extension_generated_repos.deep_view(),
            ),
        decreases module_extensions.len() - i,
    {
        assert(extensions[i as int] == module_extensions@[i as int].deep_view());
        add_evaluations(
            &mut extension_generated_repos,
            &module_extensions[i].0,
            &module_extensions[i].1,
        );
        i += 1;
    }
    let mut yanked: KeyMap<(String, String), String> = KeyMap::new();
    assert(yanked.deep_view() =~= seq![]);
    let ghost items = selected_yanked_versions.deep_view();
    let mut j: usize = 0;
    while j < selected_yanked_versions.len()
        invariant
            items == selected_yanked_versions.deep_view(),
            0 <= j <= selected_yanked_versions@.len(),
            locked_yanked(items, 0, seq![]) == locked_yanked(items, j as int, yanked.deep_view()),
        decreases selected_yanked_versions.len() - j,
    {
        assert(items[j as int] == selected_yanked_versions@[j as int].deep_view());
        match rsplit_once_of(selected_yanked_versions[j].0.as_str(), "@") {
            Some((name, version)) => {
                yanked.insert(
                    (name.to_owned(), version.to_owned()),
                    selected_yanked_versions[j].1.clone(),
                );
            },
            None => {},
        }
        j += 1;
    }
    let mut extension_facts: KeySet<String> = KeySet::new();
    assert(extension_facts.deep_view() =~= seq![]);
    extension_facts.insert_all(facts);
    BzlmodModuleLockfileData {
        registry_file_hashes,
        selected_yanked_versions: yanked,
        extension_generated_repos,
        extension_facts,
    }
}

/// The data of a lockfile that is not there.
pub fn empty_bzlmod_lockfile_data() -> (r: BzlmodModuleLockfileData)
    ensures
        r.deep_view() == (BzlmodModuleLockfileDataModel {
            registry_file_hashes: seq![],
            selected_yanked_versions: seq![],
            extension_generated_repos: seq![],
            extension_facts: seq![],
        }),
{
    let r = BzlmodModuleLockfileData {
        registry_file_hashes: KeyMap::new(),
        selected_yanked_versions: KeyMap::new(),
        extension_generated_repos: KeyMap::new(),
        extension_facts: KeySet::new(),
    };
    assert(r.registry_file_hashes.deep_view() =~= seq![]);
    assert(r.selected_yanked_versions.deep_view() =~= seq![]);
    assert(r.extension_generated_repos.deep_view() =~= seq![]);
    assert(r.extension_facts.deep_view() =~= seq![]);
    r
}

/// In a module that others depend on nothing counts that is only for its development.
pub proof fn law_discovered_without_development(
    dep: BazelDepModel,
    source_json: BcrSourceJsonModel,
    file: Text,
    lines: Seq<Text>,
)
    ensures
        discovered_module(dep, source_json, file, lines) matches Ok(module) ==> {
            &&& module.dep == dep && module.source_json == source_json
            &&& module.deps == deps_of(
                call_texts(calls(lines, "bazel_dep("@, 0)).filter(
                    |call: Text| !bool_arg(call, "dev_dependency"@),
                ),
                false,
            )
            &&& module.registered_toolchains == registered_toolchains(lines, true)
            &&& Ok::<Seq<BzlmodUseRepoRuleInvocationModel>, Text>(
                module.use_repo_rule_invocations,
            ) == repo_rule_invocations(lines, module.constants, true)
            &&& module.extension_usages == extension_usages(lines, module.constants, true)
        },
{
    law_dev_dependencies(call_texts(calls(lines, "bazel_dep("@, 0)));
}

/// The lines of the parts of a patch, one part after another.
pub open spec fn lines_of_chunks(chunks: Seq<Seq<Text>>) -> Seq<Text>
    decreases chunks.len(),
{
    if chunks.len() == 0 {
        seq![]
    } else {
        lines_of_chunks(chunks.drop_last()) + chunks.last()
    }
}

proof fn lemma_chunks(lines: Seq<Text>, i: int, current: Seq<Text>, done: Seq<Seq<Text>>)
    requires
        0 <= i <= lines.len(),
    ensures
        lines_of_chunks(patch_chunks(lines, i, current, done)) == lines_of_chunks(done) + current
            + lines.skip(i),
    decreases lines.len() - i,
{
    let closed = done.push(current);
    assert(closed.drop_last() =~= done);
    if i < lines.len() {
        if starts_chunk(lines[i], current) && current.len() > 0 {
            lemma_chunks(lines, i + 1, seq![lines[i]], closed);
        } else {
            lemma_chunks(lines, i + 1, current.push(lines[i]), done);
        }
        assert(lines.skip(i) =~= seq![lines[i]] + lines.skip(i + 1));
        assert(lines_of_chunks(patch_chunks(lines, i, current, done)) =~= lines_of_chunks(done)
            + current + lines.skip(i));
    } else {
        assert(lines_of_chunks(patch_chunks(lines, i, current, done)) =~= lines_of_chunks(done)
            + current + lines.skip(i));
    }
}

/// The parts of a patch are all its lines, in order: none is lost and none is added.
pub proof fn law_patch_parts(lines: Seq<Text>)
    ensures
        lines_of_chunks(patch_chunks(lines, 0, seq![], seq![])) == lines,
{
    lemma_chunks(lines, 0, seq![], seq![]);
    assert(lines_of_chunks(seq![]) + Seq::<Text>::empty() + lines.skip(0) =~= lines);
}

/// A line of a patch names the paths behind its mark.
pub proof fn law_patch_paths(chunk: Seq<Text>, line: Text, path: Text)
    ensures
        line == "--- "@ + path || line == "+++ "@ + path ==> chunk_paths(chunk.push(line))
            == chunk_paths(chunk).push(path),
{
    reveal_strlit("--- ");
    reveal_strlit("+++ ");
    reveal_strlit("diff --git ");
    assert(chunk.push(line).drop_last() =~= chunk);
    lemma_strip_put_prefix("--- "@, path);
    lemma_strip_put_prefix("+++ "@, path);
    if "diff --git "@.is_prefix_of(line) {
        assert(line.subrange(0, 11)[0] == line[0]);
    }
    if "--- "@.is_prefix_of(line) {
        assert(line.subrange(0, 4)[0] == line[0]);
    }
    if line == "--- "@ + path || line == "+++ "@ + path {
        assert(line_paths(line) =~= seq![path]);
        assert(chunk_paths(chunk) + seq![path] =~= chunk_paths(chunk).push(path));
    }
}

/// What the lockfile records of yanked versions is for a module and a version, which the
/// last `@` parts; of several records the last counts.
pub proof fn law_locked_yanked(
    items: Seq<(Text, Text)>,
    i: int,
    done: Seq<((Text, Text), Text)>,
    name: Text,
    version: Text,
)
    requires
        0 <= i <= items.len(),
        sorted_items::<(String, String), Text>(done),
        !version.contains('@'),
    ensures
        (forall|j: int|
            i <= j < items.len() ==> (#[trigger] items[j]).0 != name + "@"@ + version) ==> lookup(
            locked_yanked(items, i, done),
            (name, version),
        ) == lookup(done, (name, version)),
        forall|k: int|
            i <= k < items.len() && (#[trigger] items[k]).0 == name + "@"@ + version && (forall|
                j: int,
            |
                k < j < items.len() ==> (#[trigger] items[j]).0 != name + "@"@ + version)
                ==> lookup(locked_yanked(items, i, done), (name, version)) == Some(items[k].1),
    decreases items.len() - i,
{
    if i < items.len() {
        lemma_last_at(name, version);
        match rsplit_once(items[i].0, "@"@) {
            Some(key) => {
                lemma_at_joined(items[i].0);
                law_put_sorted::<(String, String), Text>(done, key, items[i].1);
                law_lookup_after_put::<(String, String), Text>(
                    done,
                    key,
                    items[i].1,
                    (name, version),
                );
                law_locked_yanked(
                    items,
                    i + 1,
                    put::<(String, String), Text>(done, key, items[i].1),
                    name,
                    version,
                );
            },
            None => law_locked_yanked(items, i + 1, done, name, version),
        }
    }
}

proof fn lemma_last_at(name: Text, version: Text)
    requires
        !version.contains('@'),
    ensures
        rsplit_once(name + "@"@ + version, "@"@) == Some((name, version)),
{
    reveal_strlit("@");
    let s = name + "@"@ + version;
    let n = name.len() as int;
    lemma_rfind_from(s, "@"@, s.len() - "@"@.len());
    assert(s.subrange(n, n + 1) =~= "@"@);
    assert(occurs_at(s, "@"@, n));
    assert forall|j: int| n < j <= s.len() - 1 implies !#[trigger] occurs_at(s, "@"@, j) by {
        if occurs_at(s, "@"@, j) {
            assert(s.subrange(j, j + 1)[0] == s[j]);
            assert(version.contains(version[j - n - 1]));
        }
    }
    assert(s.take(n) =~= name);
    assert(s.skip(n + 1) =~= version);
}

proof fn lemma_at_joined(s: Text)
    requires
        rsplit_once(s, "@"@) is Some,
    ensures
        s == (rsplit_once(s, "@"@)->0).0 + "@"@ + (rsplit_once(s, "@"@)->0).1,
{
    reveal_strlit("@");
    lemma_rfind_from(s, "@"@, s.len() - "@"@.len());
    let k = rfind(s, "@"@)->0;
    assert(s.subrange(k, k + 1)[0] == s[k]);
    assert(s =~= s.take(k) + "@"@ + s.skip(k + 1));
}

} // verus!
