//! Selection of module versions: which versions count, in what order they are
//! visited, and which of them are yanked.

use std::cmp::Ordering;
use vstd::prelude::*;
use vstd::string::*;
use crate::module::{
    BazelDep, BazelDepModel, BzlmodAllowedYankedVersionsValue,
    BzlmodAllowedYankedVersionsValueModel, BzlmodArchiveOverride, BzlmodArchiveOverrideModel,
    BzlmodLocalPathOverride, BzlmodLocalPathOverrideModel, BzlmodRegistryValue,
    BzlmodRegistryValueModel, BzlmodSelectionResult, BzlmodSingleVersionOverride,
    BzlmodSingleVersionOverrideModel, DiscoveredBcrModuleModel, InputError,
};
use crate::ordered::{Duplicate, KeyMap, KeySet, lemma_push_contains, lookup, result_view, set_put};
use crate::text::{
    Text, concat3, lemma_next_char, lemma_split_at_char, same, split, split_of, split_once,
    split_once_of,
};
use crate::version::{
    is_module_name_char, is_valid_bzlmod_module_name, parse_bzlmod_version, valid_module_name,
    version_of,
};

verus! {

/// A module by name and version.
pub type ModuleKey = (Text, Text);

/// Modules by key, as their module files describe them.
pub type Discovered = Seq<(ModuleKey, DiscoveredBcrModuleModel)>;

pub const BZLMOD_ALLOWED_YANKED_VERSIONS_ENV: &'static str = "BZLMOD_ALLOW_YANKED_VERSIONS";

/// A yanked version that may be used.
pub open spec fn yanked_allowed(
    allowed: BzlmodAllowedYankedVersionsValueModel,
    name: Text,
    version: Text,
) -> bool {
    allowed.allow_all || allowed.modules.contains((name, version))
}

/// Whether a yanked version may be used.
pub fn bzlmod_yanked_version_allowed(
    allowed_yanked_versions: &BzlmodAllowedYankedVersionsValue,
    name: &str,
    version: &str,
) -> (r: bool)
    ensures
        r == yanked_allowed(allowed_yanked_versions.deep_view(), name@, version@),
{
    allowed_yanked_versions.allow_all || allowed_yanked_versions.modules.contains(
        &(name.to_owned(), version.to_owned()),
    )
}

/// The message for a yanked version.
pub open spec fn yanked_message(name: Text, version: Text, info: Text) -> Text {
    "Yanked version detected in bzlmod dependency graph: "@ + name + "@"@ + version
        + ", for the reason: "@ + info
        + ". Use a newer version of this module, record the allowed yanked version in MODULE.bazel.lock with Bazel, or allow it with "@
        + BZLMOD_ALLOWED_YANKED_VERSIONS_ENV@ + "."@
}

/// The error for a yanked version.
pub fn bzlmod_yanked_version_error(name: &str, version: &str, info: &str) -> (r: InputError)
    ensures
        r.deep_view() == yanked_message(name@, version@, info@),
{
    let mut message = concat3("Yanked version detected in bzlmod dependency graph: ", name, "@");
    message.append(version);
    message.append(", for the reason: ");
    message.append(info);
    message.append(
        ". Use a newer version of this module, record the allowed yanked version in MODULE.bazel.lock with Bazel, or allow it with ",
    );
    message.append(BZLMOD_ALLOWED_YANKED_VERSIONS_ENV);
    message.append(".");
    InputError { message }
}

/// The start of a message on the environment variable.
pub open spec fn env_message(value: Text) -> Text {
    "Parsing environment variable "@ + BZLMOD_ALLOWED_YANKED_VERSIONS_ENV@ + "="@ + value
        + " failed, "@
}

/// The versions that the parts from `i` on of the environment variable allow.
pub open spec fn allowed_versions(value: Text, parts: Seq<Text>, i: int, done: Seq<ModuleKey>) -> Result<
    BzlmodAllowedYankedVersionsValueModel,
    Text,
>
    decreases parts.len() - i,
{
    if i < 0 || i >= parts.len() {
        Ok(BzlmodAllowedYankedVersionsValueModel { allow_all: false, modules: done })
    } else if parts[i].len() == 0 {
        allowed_versions(value, parts, i + 1, done)
    } else if parts[i] == "all"@ {
        Ok(BzlmodAllowedYankedVersionsValueModel { allow_all: true, modules: seq![] })
    } else {
        match split_once(parts[i], "@"@) {
            None => Err(
                env_message(value)
                    + "module versions must be of the form '<module name>@<version>'"@,
            ),
            Some((name, version)) => if !valid_module_name(name) {
                Err(env_message(value) + "invalid module name `"@ + name + "`"@)
            } else {
                match version_of(version) {
                    Err(why) => Err(
                        env_message(value) + "invalid version specified for module `"@ + name
                            + "`: "@ + why,
                    ),
                    Ok(_) => allowed_versions(
                        value,
                        parts,
                        i + 1,
                        set_put::<(String, String)>(done, (name, version)),
                    ),
                }
            },
        }
    }
}

/// The yanked versions that the environment variable allows.
pub open spec fn allowed_from_env(value: Option<Text>) -> Result<
    BzlmodAllowedYankedVersionsValueModel,
    Text,
> {
    match value {
        None => Ok(BzlmodAllowedYankedVersionsValueModel { allow_all: false, modules: seq![] }),
        Some(value) => allowed_versions(value, split(value, ','), 0, seq![]),
    }
}

fn env_error(value: &str) -> (r: String)
    ensures
        r@ == env_message(value@),
{
    let mut message = concat3(
        "Parsing environment variable ",
        BZLMOD_ALLOWED_YANKED_VERSIONS_ENV,
        "=",
    );
    message.append(value);
    message.append(" failed, ");
    message
}

/// The yanked versions that the environment variable allows.
pub fn bzlmod_allowed_yanked_versions_from_env(value: Option<&str>) -> (r: Result<
    BzlmodAllowedYankedVersionsValue,
    InputError,
>)
    ensures
        result_view(r) == allowed_from_env(value.deep_view()),
{
    let mut modules: KeySet<(String, String)> = KeySet::new();
    assert(modules.deep_view() =~= seq![]);
    let text = match value {
        Some(text) => text,
        None => {
            return Ok(BzlmodAllowedYankedVersionsValue { allow_all: false, modules });
        },
    };
    let parts = split_of(text, ',');
    let ghost model = parts.deep_view();
    let mut i: usize = 0;
    while i < parts.len()
        invariant
            model == parts.deep_view(),
            0 <= i <= parts@.len(),
            allowed_from_env(value.deep_view()) == allowed_versions(
                text@,
                model,
                i as int,
                modules.deep_view(),
            ),
        decreases parts.len() - i,
    {
        assert(model[i as int] == parts@[i as int]@);
        let part = parts[i].as_str();
        if part.is_empty() {
            i += 1;
            continue ;
        }
        if same(part, "all") {
            let none: KeySet<(String, String)> = KeySet::new();
            assert(none.deep_view() =~= seq![]);
            return Ok(BzlmodAllowedYankedVersionsValue { allow_all: true, modules: none });
        }
        match split_once_of(part, "@") {
            None => {
                let mut message = env_error(text);
                message.append("module versions must be of the form '<module name>@<version>'");
                return Err(InputError { message });
            },
            Some((name, version)) => {
                if !is_valid_bzlmod_module_name(name) {
                    let mut message = env_error(text);
                    message.append("invalid module name `");
                    message.append(name);
                    message.append("`");
                    return Err(InputError { message });
                }
                match parse_bzlmod_version(version) {
                    Err(why) => {
                        let mut message = env_error(text);
                        message.append("invalid version specified for module `");
                        message.append(name);
                        message.append("`: ");
                        message.append(why.message.as_str());
                        return Err(InputError { message });
                    },
                    Ok(_) => {
                        modules.insert((name.to_owned(), version.to_owned()));
                    },
                }
            },
        }
        i += 1;
    }
    Ok(BzlmodAllowedYankedVersionsValue { allow_all: false, modules })
}

/// The version selected of a module: that of the first key with its name.
pub open spec fn selected_version(keys: Seq<ModuleKey>, name: Text) -> Option<Text> {
    lookup(keys, name)
}

impl BzlmodSelectionResult {
    /// The version selected of a module.
    pub fn selected_versions_for_name(&self, name: &str) -> (r: Option<String>)
        ensures
            r.deep_view() == selected_version(self.selected_keys.deep_view(), name@),
    {
        let ghost model = self.selected_keys.deep_view();
        let mut i: usize = 0;
        assert(model.skip(0) =~= model);
        while i < self.selected_keys.items.len()
            invariant
                model == self.selected_keys.deep_view(),
                0 <= i <= self.selected_keys.items@.len(),
                lookup(model, name@) == lookup(model.skip(i as int), name@),
            decreases self.selected_keys.items.len() - i,
        {
            assert(model.skip(i as int)[0] == self.selected_keys.items@[i as int].deep_view());
            if same(self.selected_keys.items[i].0.as_str(), name) {
                return Some(self.selected_keys.items[i].1.clone());
            }
            assert(model.skip(i as int).skip(1) =~= model.skip(i + 1));
            i += 1;
        }
        None
    }
}

/// The modules from `i` on whose registry is to be asked for yanked versions; the
/// message where the lockfile already says that one is yanked and it is not
/// allowed.
pub open spec fn yanked_queries(
    keys: Seq<ModuleKey>,
    archives: Seq<(Text, BzlmodArchiveOverrideModel)>,
    local_paths: Seq<(Text, BzlmodLocalPathOverrideModel)>,
    registry: BzlmodRegistryValueModel,
    allowed: BzlmodAllowedYankedVersionsValueModel,
    i: int,
    done: Seq<Text>,
) -> Result<Seq<Text>, Text>
    decreases keys.len() - i,
{
    if i < 0 || i >= keys.len() {
        Ok(done)
    } else {
        let (name, version) = keys[i];
        let url = registry.url + "/modules/"@ + name + "/"@ + version + "/source.json"@;
        let known = lookup(registry.selected_yanked_versions, keys[i]);
        if name == "bazel_tools"@ || lookup(archives, name) is Some || lookup(local_paths, name)
            is Some {
            yanked_queries(keys, archives, local_paths, registry, allowed, i + 1, done)
        } else if known is Some && !yanked_allowed(allowed, name, version) {
            Err(yanked_message(name, version, known->0))
        } else if known is Some || lookup(registry.registry_file_hashes, url) is Some {
            yanked_queries(keys, archives, local_paths, registry, allowed, i + 1, done)
        } else {
            yanked_queries(keys, archives, local_paths, registry, allowed, i + 1, done.push(name))
        }
    }
}

/// The modules whose registry is to be asked for yanked versions.
pub fn bzlmod_yanked_version_queries(
    selected_keys: &KeySet<(String, String)>,
    archive_overrides: &KeyMap<String, BzlmodArchiveOverride>,
    local_path_overrides: &KeyMap<String, BzlmodLocalPathOverride>,
    registry: &BzlmodRegistryValue,
    allowed_yanked_versions: &BzlmodAllowedYankedVersionsValue,
) -> (r: Result<Vec<String>, InputError>)
    ensures
        result_view(r) == yanked_queries(
            selected_keys.deep_view(),
            archive_overrides.deep_view(),
            local_path_overrides.deep_view(),
            registry.deep_view(),
            allowed_yanked_versions.deep_view(),
            0,
            seq![],
        ),
{
    let ghost keys = selected_keys.deep_view();
    let mut out: Vec<String> = Vec::new();
    let mut i: usize = 0;
    assert(out.deep_view() =~= seq![]);
    while i < selected_keys.items.len()
        invariant
            keys == selected_keys.deep_view(),
            0 <= i <= selected_keys.items@.len(),
            yanked_queries(
                keys,
                archive_overrides.deep_view(),
                local_path_overrides.deep_view(),
                registry.deep_view(),
                allowed_yanked_versions.deep_view(),
                0,
                seq![],
            ) == yanked_queries(
                keys,
                archive_overrides.deep_view(),
                local_path_overrides.deep_view(),
                registry.deep_view(),
                allowed_yanked_versions.deep_view(),
                i as int,
                out.deep_view(),
            ),
        decreases selected_keys.items.len() - i,
    {
        let key = &selected_keys.items[i];
        assert(keys[i as int] == key.deep_view());
        let name = key.0.as_str();
        let version = key.1.as_str();
        if same(name, "bazel_tools") || archive_overrides.contains_key(&key.0)
            || local_path_overrides.contains_key(&key.0) {
            i += 1;
            continue ;
        }
        match registry.selected_yanked_versions.get(key) {
            Some(info) => {
                if !bzlmod_yanked_version_allowed(allowed_yanked_versions, name, version) {
                    return Err(bzlmod_yanked_version_error(name, version, info.as_str()));
                }
                i += 1;
                continue ;
            },
            None => {},
        }
        let mut url = concat3(registry.url.as_str(), "/modules/", name);
        url.append("/");
        url.append(version);
        url.append("/source.json");
        if !registry.registry_file_hashes.contains_key(&url) {
            let ghost before = out.deep_view();
            out.push(name.to_owned());
            assert(out.deep_view() =~= before.push(name@));
        }
        i += 1;
    }
    Ok(out)
}

/// What the registry says of the modules from `i` on: the message for the first
/// selected version that is yanked and not allowed.
pub open spec fn yanked_replies(
    keys: Seq<ModuleKey>,
    replies: Seq<(Text, Option<Seq<(Text, Text)>>)>,
    allowed: BzlmodAllowedYankedVersionsValueModel,
    i: int,
) -> Option<Text>
    decreases replies.len() - i,
{
    if i < 0 || i >= replies.len() {
        None
    } else {
        let (name, yanked) = replies[i];
        match (selected_version(keys, name), yanked) {
            (Some(version), Some(versions)) => match lookup(versions, version) {
                Some(info) if !yanked_allowed(allowed, name, version) => Some(
                    yanked_message(name, version, info),
                ),
                _ => yanked_replies(keys, replies, allowed, i + 1),
            },
            _ => yanked_replies(keys, replies, allowed, i + 1),
        }
    }
}

/// Checks the registry's replies: an error where a selected version is yanked
/// and not allowed.
pub fn bzlmod_check_yanked_replies(
    selection: &BzlmodSelectionResult,
    replies: &Vec<(String, Option<KeyMap<String, String>>)>,
    allowed_yanked_versions: &BzlmodAllowedYankedVersionsValue,
) -> (r: Result<(), InputError>)
    ensures
        match yanked_replies(
            selection.selected_keys.deep_view(),
            replies.deep_view(),
            allowed_yanked_versions.deep_view(),
            0,
        ) {
            None => r is Ok,
            Some(message) => r matches Err(e) && e.deep_view() == message,
        },
{
    let ghost keys = selection.selected_keys.deep_view();
    let ghost model = replies.deep_view();
    let mut i: usize = 0;
    while i < replies.len()
        invariant
            keys == selection.selected_keys.deep_view(),
            model == replies.deep_view(),
            0 <= i <= replies@.len(),
            yanked_replies(keys, model, allowed_yanked_versions.deep_view(), 0) == yanked_replies(
                keys,
                model,
                allowed_yanked_versions.deep_view(),
                i as int,
            ),
        decreases replies.len() - i,
    {
        assert(model[i as int] == replies@[i as int].deep_view());
        let name = replies[i].0.as_str();
        match &replies[i].1 {
            Some(versions) => match selection.selected_versions_for_name(name) {
                Some(version) => match versions.get(&version) {
                    Some(info) => {
                        if !bzlmod_yanked_version_allowed(
                            allowed_yanked_versions,
                            name,
                            version.as_str(),
                        ) {
                            return Err(
                                bzlmod_yanked_version_error(name, version.as_str(), info.as_str()),
                            );
                        }
                    },
                    None => {},
                },
                None => {},
            },
            None => {},
        }
        i += 1;
    }
    Ok(())
}

/// The version of a dependency that counts under the overrides: none where the
/// module comes from an archive or a directory.
pub open spec fn overridden_version(
    dep: BazelDepModel,
    archives: Seq<(Text, BzlmodArchiveOverrideModel)>,
    versions: Seq<(Text, BzlmodSingleVersionOverrideModel)>,
    local_paths: Seq<(Text, BzlmodLocalPathOverrideModel)>,
) -> BazelDepModel {
    let version = if lookup(archives, dep.name) is Some || lookup(local_paths, dep.name) is Some {
        seq![]
    } else {
        match lookup(versions, dep.name) {
            Some(o) => match o.version {
                Some(version) => version,
                None => dep.version,
            },
            None => dep.version,
        }
    };
    BazelDepModel { name: dep.name, version, apparent_name: dep.apparent_name }
}

fn override_version(
    dep: BazelDep,
    archive_overrides: &KeyMap<String, BzlmodArchiveOverride>,
    single_version_overrides: &KeyMap<String, BzlmodSingleVersionOverride>,
    local_path_overrides: &KeyMap<String, BzlmodLocalPathOverride>,
) -> (r: BazelDep)
    ensures
        r.deep_view() == overridden_version(
            dep.deep_view(),
            archive_overrides.deep_view(),
            single_version_overrides.deep_view(),
            local_path_overrides.deep_view(),
        ),
{
    let mut dep = dep;
    if archive_overrides.contains_key(&dep.name) || local_path_overrides.contains_key(&dep.name) {
        dep.version = String::new();
        assert(dep.version@ =~= seq![]);
    } else {
        match single_version_overrides.get(&dep.name) {
            Some(o) => match &o.version {
                Some(version) => {
                    dep.version = version.clone();
                },
                None => {},
            },
            None => {},
        }
    }
    dep
}

/// A dependency to discover: none where it is the root module.
pub fn bzlmod_discovery_dep(
    dep: BazelDep,
    root_module_name: &str,
    archive_overrides: &KeyMap<String, BzlmodArchiveOverride>,
    single_version_overrides: &KeyMap<String, BzlmodSingleVersionOverride>,
    local_path_overrides: &KeyMap<String, BzlmodLocalPathOverride>,
) -> (r: Option<BazelDep>)
    ensures
        r.deep_view() == (if dep.name@ == root_module_name@ {
            None
        } else {
            Some(
                overridden_version(
                    dep.deep_view(),
                    archive_overrides.deep_view(),
                    single_version_overrides.deep_view(),
                    local_path_overrides.deep_view(),
                ),
            )
        }),
{
    if same(dep.name.as_str(), root_module_name) {
        return None;
    }
    Some(override_version(dep, archive_overrides, single_version_overrides, local_path_overrides))
}

/// The dependencies with the versions that count under the overrides.
pub fn apply_bzlmod_dep_overrides(
    deps: &mut Vec<BazelDep>,
    archive_overrides: &KeyMap<String, BzlmodArchiveOverride>,
    single_version_overrides: &KeyMap<String, BzlmodSingleVersionOverride>,
    local_path_overrides: &KeyMap<String, BzlmodLocalPathOverride>,
)
    ensures
        final(deps).deep_view() == Seq::new(
            old(deps).deep_view().len(),
            |i: int|
                overridden_version(
                    old(deps).deep_view()[i],
                    archive_overrides.deep_view(),
                    single_version_overrides.deep_view(),
                    local_path_overrides.deep_view(),
                ),
        ),
{
    let ghost model = deps.deep_view();
    let ghost target = Seq::new(
        model.len(),
        |i: int|
            overridden_version(
                model[i],
                archive_overrides.deep_view(),
                single_version_overrides.deep_view(),
                local_path_overrides.deep_view(),
            ),
    );
    let mut out: Vec<BazelDep> = Vec::new();
    let mut i: usize = 0;
    while i < deps.len()
        invariant
            model == deps.deep_view(),
            target == Seq::new(
                model.len(),
                |i: int|
                    overridden_version(
                        model[i],
                        archive_overrides.deep_view(),
                        single_version_overrides.deep_view(),
                        local_path_overrides.deep_view(),
                    ),
            ),
            0 <= i <= deps@.len(),
            out.deep_view() =~= target.take(i as int),
        decreases deps.len() - i,
    {
        let ghost before = out.deep_view();
        assert(model[i as int] == deps@[i as int].deep_view());
        out.push(
            override_version(
                deps[i].duplicate(),
                archive_overrides,
                single_version_overrides,
                local_path_overrides,
            ),
        );
        assert(out.deep_view() =~= before.push(target[i as int]));
        i += 1;
    }
    assert(target.take(i as int) =~= target);
    *deps = out;
}

/// A selected version that the registry says is yanked is refused unless it is allowed, and
/// nothing else is refused.
pub proof fn law_yanked_refused(
    keys: Seq<ModuleKey>,
    replies: Seq<(Text, Option<Seq<(Text, Text)>>)>,
    allowed: BzlmodAllowedYankedVersionsValueModel,
    i: int,
)
    requires
        0 <= i <= replies.len(),
    ensures
        yanked_replies(keys, replies, allowed, i) is Some <==> exists|j: int|
            {
                &&& i <= j < replies.len()
                &&& lookup(keys, (#[trigger] replies[j]).0) is Some
                &&& replies[j].1 is Some
                &&& lookup(replies[j].1->0, lookup(keys, replies[j].0)->0) is Some
                &&& !allowed.allow_all && !allowed.modules.contains(
                    (replies[j].0, lookup(keys, replies[j].0)->0),
                )
            },
    decreases replies.len() - i,
{
    if i < replies.len() {
        law_yanked_refused(keys, replies, allowed, i + 1);
        let (name, yanked) = replies[i];
        assert(replies[i].0 == name);
    }
}

/// The registry is asked about a module exactly where the module comes from it, and the
/// lockfile neither records the version as yanked nor knows its source file. A version
/// that the lockfile records as yanked is refused unless it is allowed.
pub proof fn law_yanked_queries(
    keys: Seq<ModuleKey>,
    archives: Seq<(Text, BzlmodArchiveOverrideModel)>,
    local_paths: Seq<(Text, BzlmodLocalPathOverrideModel)>,
    registry: BzlmodRegistryValueModel,
    allowed: BzlmodAllowedYankedVersionsValueModel,
    i: int,
    done: Seq<Text>,
    name: Text,
)
    requires
        0 <= i <= keys.len(),
    ensures
        match yanked_queries(keys, archives, local_paths, registry, allowed, i, done) {
            Ok(out) => {
                &&& out.contains(name) <==> done.contains(name) || exists|j: int|
                    {
                        &&& i <= j < keys.len()
                        &&& (#[trigger] keys[j]).0 == name
                        &&& name != "bazel_tools"@
                        &&& lookup(archives, name) is None && lookup(local_paths, name) is None
                        &&& lookup(registry.selected_yanked_versions, keys[j]) is None
                        &&& lookup(
                            registry.registry_file_hashes,
                            registry.url + "/modules/"@ + name + "/"@ + keys[j].1 + "/source.json"@,
                        ) is None
                    }
                &&& forall|j: int|
                    i <= j < keys.len() && (#[trigger] keys[j]).0 != "bazel_tools"@ && lookup(
                        archives,
                        keys[j].0,
                    ) is None && lookup(local_paths, keys[j].0) is None && lookup(
                        registry.selected_yanked_versions,
                        keys[j],
                    ) is Some ==> allowed.allow_all || allowed.modules.contains(keys[j])
            },
            Err(_) => exists|j: int|
                {
                    &&& i <= j < keys.len()
                    &&& lookup(registry.selected_yanked_versions, #[trigger] keys[j]) is Some
                    &&& !allowed.allow_all && !allowed.modules.contains(keys[j])
                },
        },
    decreases keys.len() - i,
{
    if i < keys.len() {
        let own = keys[i].0;
        let url = registry.url + "/modules/"@ + own + "/"@ + keys[i].1 + "/source.json"@;
        let known = lookup(registry.selected_yanked_versions, keys[i]);
        assert(keys[i] == (own, keys[i].1));
        if own == "bazel_tools"@ || lookup(archives, own) is Some || lookup(local_paths, own)
            is Some || (known is Some && yanked_allowed(allowed, own, keys[i].1)) || (known is None
            && lookup(registry.registry_file_hashes, url) is Some) {
            law_yanked_queries(
                keys,
                archives,
                local_paths,
                registry,
                allowed,
                i + 1,
                done,
                name,
            );
        } else if known is Some {
        } else {
            law_yanked_queries(
                keys,
                archives,
                local_paths,
                registry,
                allowed,
                i + 1,
                done.push(own),
                name,
            );
            lemma_push_contains(done, own, name);
        }
    }
}

/// What the environment allows of yanked versions: nothing where it is not set, all for
/// `all`, and one version of a module for the two with an `@` between them.
pub proof fn law_allowed_versions(name: Text, version: Text)
    requires
        valid_module_name(name),
        version_of(version) is Ok,
        !version.contains(','),
    ensures
        allowed_from_env(None) == Ok::<BzlmodAllowedYankedVersionsValueModel, Text>(
            BzlmodAllowedYankedVersionsValueModel { allow_all: false, modules: seq![] },
        ),
        allowed_from_env(Some("all"@)) matches Ok(v) && v.allow_all,
        allowed_from_env(Some(name + "@"@ + version)) matches Ok(v) && !v.allow_all
            && v.modules == seq![(name, version)],
{
    reveal_strlit("all");
    reveal_strlit("@");
    assert("@"@ =~= seq!['@']);
    let all = "all"@;
    lemma_one_piece(all, ',');
    let text = name + "@"@ + version;
    assert forall|i: int| 0 <= i < text.len() implies text[i] != ',' by {
        if i < name.len() {
            if i > 0 {
                assert(is_module_name_char(name[i]));
            }
        } else if i > name.len() {
            assert(version.contains(version[i - name.len() - 1]));
        }
    }
    lemma_one_piece(text, ',');
    assert(!name.contains('@')) by {
        if name.contains('@') {
            let i = choose|i: int| 0 <= i < name.len() && name[i] == '@';
            if i > 0 {
                assert(is_module_name_char(name[i]));
            }
        }
    }
    lemma_split_at_char(name, '@', version);
    if text == all {
        assert(text[name.len() as int] == '@');
        assert(all[0] == 'a' && all[1] == 'l' && all[2] == 'l');
    }
    reveal_with_fuel(allowed_versions, 2);
    let none: Seq<ModuleKey> = seq![];
    assert(set_put::<(String, String)>(none, (name, version)) =~= seq![(name, version)]);
}

proof fn lemma_one_piece(s: Text, c: char)
    requires
        forall|i: int| 0 <= i < s.len() ==> #[trigger] s[i] != c,
    ensures
        split(s, c) == seq![s],
{
    lemma_next_char(s, c, 0);
    assert(s.subrange(0, s.len() as int) =~= s);
}

/// A module from an archive or a directory has no version; a version that is set for a
/// module takes the place of the one that is asked for; and any other dependency is asked
/// for as it is.
pub proof fn law_override_decides(
    dep: BazelDepModel,
    archives: Seq<(Text, BzlmodArchiveOverrideModel)>,
    versions: Seq<(Text, BzlmodSingleVersionOverrideModel)>,
    local_paths: Seq<(Text, BzlmodLocalPathOverrideModel)>,
)
    ensures
        overridden_version(dep, archives, versions, local_paths).name == dep.name,
        overridden_version(dep, archives, versions, local_paths).apparent_name == dep.apparent_name,
        lookup(archives, dep.name) is Some || lookup(local_paths, dep.name) is Some
            ==> overridden_version(dep, archives, versions, local_paths).version.len() == 0,
        lookup(archives, dep.name) is None && lookup(local_paths, dep.name) is None ==> {
            let version = overridden_version(dep, archives, versions, local_paths).version;
            &&& lookup(versions, dep.name) is Some && lookup(versions, dep.name)->0.version is Some
                ==> version == lookup(versions, dep.name)->0.version->0
            &&& lookup(versions, dep.name) is None ==> version == dep.version
        },
{
}

} // verus!
