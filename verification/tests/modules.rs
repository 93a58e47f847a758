use bazel_compat::dep_discovery::Discovery;
use bazel_compat::discovery::{
    bzlmod_lockfile_data, bzlmod_vendor_repos_from_calls, empty_bcr_source_json,
    empty_bzlmod_lockfile_data, parse_discovered_bzlmod_module, patch_chunk_paths,
    sanitize_bzlmod_temp_name, split_patch_chunks, verify_bzlmod_archive_digest,
};
use bazel_compat::external::{
    bzlmod_cell_name, is_bzlmod_cell_name, BzlmodGeneratedCellGenerator, BzlmodHostPlatformSetup,
    ExternalCellRegistry, GitObjectFormat,
};
use bazel_compat::inspection::bzlmod_module_inspection_value;
use bazel_compat::module::{
    BazelDep, BcrSourceJson, BzlmodAllowedYankedVersionsValue, BzlmodDepGraph, BzlmodExtensionId,
    BzlmodRegistryValue, BzlmodRootPatch, BzlmodSelectionResult, DiscoveredBcrModule,
};
use bazel_compat::module_inputs::{
    read_bazel_module_resolution_inputs, BzlmodRootResolutionInput, ReadStop,
};
use bazel_compat::module_patches::{
    bzlmod_patch_chunk_touches_module_file, bzlmod_patch_paths, filter_bzlmod_module_file_patch,
    next_archive_download, next_bzlmod_module_file_patch, ArchiveDownload,
};
use bazel_compat::ordered::{Duplicate, KeyMap, KeySet};
use bazel_compat::registry_fetch::{
    bzlmod_module_file_patches, bzlmod_module_file_source, bzlmod_source_json_source,
    ModuleFileSource, SourceJsonSource,
};
use bazel_compat::repositories::{
    bzlmod_dep_graph, bzlmod_repo_definition, bzlmod_repos_to_vendor, bzlmod_repository_directory,
    bzlmod_resolved_aliases, bzlmod_root_extension_ids, bzlmod_single_extension_eval_setup,
    bzlmod_single_extension_usages, get_bzlmod_module_extension_repo_mapping_base, repo_spec_keys,
    set_bzlmod_repository_environment, BzlmodRepositoryEnvironmentData,
    SetBzlmodRepositoryEnvironmentData,
};
use bazel_compat::resolution::resolve_bcr_modules_from_dep_graph;
use bazel_compat::resolved::{
    BazelCompatCellAlias, BazelCompatExternalModule, BazelCompatGeneratedModule,
    BazelCompatRegistryModule, ResolvedExternalModule,
};
use bazel_compat::select::{
    bzlmod_canonical_repo_name, bzlmod_canonical_repo_names_by_key, select_bzlmod_modules,
};
use bazel_compat::selection::{
    bzlmod_allowed_yanked_versions_from_env, bzlmod_check_yanked_replies,
    bzlmod_yanked_version_queries,
};
use bazel_compat::version::{bzlmod_version_cmp, is_valid_bzlmod_module_name};
use std::cmp::Ordering;

fn dep(name: &str, version: &str) -> BazelDep {
    BazelDep {
        name: name.to_owned(),
        version: version.to_owned(),
        apparent_name: Some(name.to_owned()),
    }
}

fn key(name: &str, version: &str) -> (String, String) {
    (name.to_owned(), version.to_owned())
}

fn module(name: &str, version: &str, text: &str) -> DiscoveredBcrModule {
    parse_discovered_bzlmod_module(dep(name, version), empty_bcr_source_json(), text).unwrap()
}

fn files(entries: &[(&str, &str)]) -> KeyMap<String, Option<Vec<String>>> {
    let mut known = KeyMap::new();
    for (name, text) in entries {
        known.insert(
            name.to_string(),
            Some(text.lines().map(str::to_owned).collect::<Vec<_>>()),
        );
    }
    known
}

fn inputs(entries: &[(&str, &str)]) -> Result<BzlmodRootResolutionInput, ReadStop> {
    read_bazel_module_resolution_inputs("", &files(entries), "module(name = \"bazel_tools\")\n")
}

fn message(stop: ReadStop) -> String {
    match stop {
        ReadStop::NeedsFile(path) => format!("needs {path}"),
        ReadStop::Failed(e) => e.message,
    }
}

#[test]
fn test_bzlmod_multiple_version_override_rejected() {
    let error = inputs(&[(
        "MODULE.bazel",
        r#"module(name = "root")
multiple_version_override(
    module_name = "example",
    versions = ["1.0.0", "2.0.0"],
)
"#,
    )])
    .err()
    .map(message)
    .unwrap();
    assert!(
        error.contains("multiple_version_override is not implemented"),
        "error: {error}"
    );
}

#[test]
fn module_files_are_read_with_what_they_include() {
    let read = inputs(&[
        (
            "MODULE.bazel",
            r#"module(name = "hello", repo_name = "hello_root", version = "1.0")
include("//deps:extra.MODULE.bazel")
include("@other//:ignored")
bazel_dep(name = "a", version = "1.0")
register_toolchains("//tools:all")
"#,
        ),
        (
            "deps/extra.MODULE.bazel",
            r#"bazel_dep(name = "b", version = "2.0", repo_name = "bee")
include(":more.MODULE.bazel")
"#,
        ),
        ("deps/more.MODULE.bazel", "bazel_dep(name = \"c\", version = \"3.0\")\n"),
    ])
    .ok()
    .unwrap();
    let deps: Vec<&str> = read.root_deps.iter().map(|dep| dep.name.as_str()).collect();
    assert_eq!(deps, vec!["a", "b", "c"]);
    assert_eq!(read.root_deps[1].apparent_name.as_deref(), Some("bee"));
    let aliases: Vec<&str> = read
        .aliases
        .root_aliases
        .iter()
        .map(|alias| alias.alias.as_str())
        .collect();
    assert_eq!(aliases, vec!["hello", "hello_root"]);
    assert_eq!(read.aliases.registered_toolchains, vec!["//tools:all"]);
    assert_eq!(read.root_module.name, "hello");
    assert_eq!(read.builtin_bazel_tools_module.dep.name, "bazel_tools");
}

#[test]
fn module_files_that_are_not_known_are_asked_for() {
    assert_eq!(
        read_bazel_module_resolution_inputs("cell", &KeyMap::new(), "")
            .err()
            .map(message)
            .unwrap(),
        "needs cell/MODULE.bazel"
    );
    let patched = (
        "MODULE.bazel",
        "module(name = \"r\")\nsingle_version_override(module_name = \"a\", version = \"2.0\", patches = [\"//:a.patch\"])\nbazel_dep(name = \"a\", version = \"1.0\")\n",
    );
    assert_eq!(
        inputs(&[patched]).err().map(message).unwrap(),
        "needs a.patch"
    );
    let read = inputs(&[patched, ("a.patch", "x\ny")]).ok().unwrap();
    assert_eq!(read.root_deps[0].version, "2.0");
    let overrides = read
        .single_version_overrides
        .get(&"a".to_owned())
        .unwrap();
    assert_eq!(overrides.patches[0].content, "x\ny\n");
    let mut known = files(&[patched]);
    known.insert("a.patch".to_owned(), None);
    assert_eq!(
        read_bazel_module_resolution_inputs("", &known, "")
            .err()
            .map(message)
            .unwrap(),
        "bzlmod override patch `a.patch` does not exist"
    );
}

#[test]
fn local_modules_need_a_module_file() {
    let root = (
        "MODULE.bazel",
        "module(name = \"r\")\nlocal_path_override(module_name = \"a\", path = \"./third/../a\")\n",
    );
    let mut known = files(&[root]);
    known.insert("a/MODULE.bazel".to_owned(), None);
    assert_eq!(
        read_bazel_module_resolution_inputs("", &known, "")
            .err()
            .map(message)
            .unwrap(),
        "local_path_override for module `a` points to `a`, but `a/MODULE.bazel` does not exist"
    );
    let read = inputs(&[root, ("a/MODULE.bazel", "module(name = \"a\")")])
        .ok()
        .unwrap();
    assert_eq!(
        read.local_path_overrides
            .get(&"a".to_owned())
            .unwrap()
            .module_text,
        "module(name = \"a\")"
    );
    assert_eq!(
        inputs(&[(
            "MODULE.bazel",
            "local_path_override(module_name = \"a\", path = \"../..\")"
        )])
        .err()
        .map(message)
        .unwrap(),
        "local_path_override for module `a` has invalid path `../..`"
    );
    assert!(inputs(&[("MODULE.bazel", "git_override(module_name = \"a\")")])
        .err()
        .map(message)
        .unwrap()
        .starts_with("git_override is not implemented"));
}

#[test]
fn versions_are_ordered_by_their_parts() {
    let less = |a: &str, b: &str| bzlmod_version_cmp(a, b).unwrap() == Ordering::Less;
    assert!(less("1.0", "1.1"));
    assert!(less("1.9", "1.10"));
    assert!(less("1.0-rc1", "1.0"));
    assert!(less("1.0-1", "1.0-a"));
    assert!(less("9.9", ""));
    assert!(less("1.0", "1.0.1"));
    assert_eq!(
        bzlmod_version_cmp("1.0+build", "1.0").unwrap(),
        Ordering::Equal
    );
    assert!(bzlmod_version_cmp("1..0", "1").is_err());
    assert!(is_valid_bzlmod_module_name("rules_go"));
    assert!(!is_valid_bzlmod_module_name("Rules"));
    assert!(!is_valid_bzlmod_module_name(""));
}

fn graph_modules() -> KeyMap<(String, String), DiscoveredBcrModule> {
    let mut discovered = KeyMap::new();
    for found in [
        module("a", "1.0", "bazel_dep(name = \"b\", version = \"1.0\")"),
        module("b", "1.0", "module(name = \"b\")"),
        module(
            "b",
            "2.0",
            "module(name = \"b\", repo_name = \"bee\")\nbazel_dep(name = \"c\", version = \"1.0\")",
        ),
        module("c", "1.0", "register_toolchains(\"//:tc\")"),
    ] {
        discovered.insert(key(&found.dep.name, &found.dep.version), found);
    }
    discovered
}

fn tools() -> DiscoveredBcrModule {
    module("bazel_tools", "", "module(name = \"bazel_tools\")")
}

fn selected() -> BzlmodSelectionResult {
    select_bzlmod_modules(
        &vec![dep("a", "1.0"), dep("b", "2.0")],
        tools(),
        &graph_modules(),
    )
    .unwrap()
}

#[test]
fn selection_takes_the_highest_version_of_each_module() {
    let selection = selected();
    assert!(selection.selected_keys.contains(&key("a", "1.0")));
    assert!(selection.selected_keys.contains(&key("b", "2.0")));
    assert!(selection.selected_keys.contains(&key("c", "1.0")));
    assert!(!selection.selected_keys.contains(&key("b", "1.0")));
    let order = &selection.selected_keys_in_dependency_order;
    let at = |name: &str| order.iter().position(|key| key.0 == name).unwrap();
    assert!(at("c") < at("b"));
    assert!(at("b") < at("a"));
    assert_eq!(
        selection
            .canonical_repo_names_by_key
            .get(&key("b", "2.0"))
            .unwrap(),
        "b+"
    );
    assert_eq!(selection.selected_versions_for_name("b").as_deref(), Some("2.0"));
    assert_eq!(selection.selected_versions_for_name("x"), None);
    let mut keys = repo_spec_keys(&selection);
    keys.retain(|key| key.0 == "bazel_tools");
    assert!(keys.is_empty());
}

#[test]
fn selection_leaves_out_what_was_not_found_and_compares_versions() {
    let selection =
        select_bzlmod_modules(&vec![dep("x", "1.0")], tools(), &graph_modules()).unwrap();
    assert_eq!(selection.selected_keys.items, vec![key("bazel_tools", "")]);
    let mut discovered = graph_modules();
    let mut odd = module("b", "1.0", "");
    odd.dep.version = "1..0".to_owned();
    discovered.insert(key("b", "1..0"), odd);
    let e = select_bzlmod_modules(&vec![dep("b", "2.0")], tools(), &discovered)
        .err()
        .unwrap();
    assert!(e.message.starts_with("Invalid version for module `b`"), "{}", e.message);
}

#[test]
fn repositories_are_named_after_their_modules() {
    assert_eq!(bzlmod_canonical_repo_name("a", "1.0", false), "a+");
    assert_eq!(bzlmod_canonical_repo_name("a", "1.0", true), "a+1.0");
    let mut keys = KeySet::new();
    keys.insert(key("a", "1.0"));
    keys.insert(key("a", "2.0"));
    keys.insert(key("b", "1.0"));
    let names = bzlmod_canonical_repo_names_by_key(&keys);
    assert_eq!(names.get(&key("a", "1.0")).unwrap(), "a+1.0");
    assert_eq!(names.get(&key("b", "1.0")).unwrap(), "b+");
    assert_eq!(bzlmod_cell_name("rules_go+0.57.0"), "bzlmod_rules_go_0_57_0");
    assert!(is_bzlmod_cell_name("bzlmod_x"));
    assert!(!is_bzlmod_cell_name("root"));
}

fn root_inputs() -> BzlmodRootResolutionInput {
    inputs(&[(
        "MODULE.bazel",
        r#"module(name = "root", version = "1.0")
bazel_dep(name = "a", version = "1.0")
bazel_dep(name = "b", version = "2.0")
ext = use_extension("@b//:ext.bzl", "ext")
use_repo(ext, "made")
"#,
    )])
    .ok()
    .unwrap()
}

fn graph(root: &BzlmodRootResolutionInput) -> BzlmodDepGraph {
    let mut hidden = empty_bzlmod_lockfile_data();
    hidden.extension_facts.insert("fact".to_owned());
    let mut repos = KeySet::new();
    repos.insert("locked".to_owned());
    hidden
        .extension_generated_repos
        .insert("@@b+//:ext.bzl%ext".to_owned(), repos);
    let mut source = empty_bcr_source_json();
    source.url = "https://c".to_owned();
    bzlmod_dep_graph(
        root,
        &empty_bzlmod_lockfile_data(),
        &hidden,
        &selected(),
        &vec![(key("c", "1.0"), source), (key("nowhere", ""), empty_bcr_source_json())],
    )
    .unwrap()
}

#[test]
fn the_graph_takes_in_sources_and_lock_files() {
    let root = root_inputs();
    let graph = graph(&root);
    assert_eq!(
        graph.discovered.get(&key("c", "1.0")).unwrap().source_json.url,
        "https://c"
    );
    assert!(graph
        .root_module
        .lockfile_extension_facts
        .contains(&"fact".to_owned()));
    let id = BzlmodExtensionId {
        bzl_cell_name: "bzlmod_b_".to_owned(),
        bzl_path: "ext.bzl".to_owned(),
        extension_name: "ext".to_owned(),
    };
    assert_eq!(
        graph.extension_unique_names.get(&id).map(String::as_str),
        Some("b++ext")
    );
    assert_eq!(bzlmod_root_extension_ids(&root, &graph).unwrap(), vec![id.duplicate()]);
    let (unique, config) = bzlmod_single_extension_usages(&graph, &id).unwrap();
    assert_eq!(unique, "b++ext");
    assert_eq!(config.usages.len(), 1);
    let unknown = BzlmodExtensionId {
        extension_name: "other".to_owned(),
        ..id.duplicate()
    };
    assert_eq!(
        bzlmod_single_extension_usages(&graph, &unknown)
            .err()
            .unwrap()
            .message,
        "bzlmod module extension `bzlmod_b_//ext.bzl%other` has no usages"
    );
    let setup = bzlmod_single_extension_eval_setup(&id, &unique, "{}");
    assert_eq!(setup.extension_bzl_file, "bzlmod_b_//ext.bzl");
    assert_eq!(setup.extension_usages_key.len(), 64);
    let base = get_bzlmod_module_extension_repo_mapping_base(&graph, &id, "main").unwrap();
    assert!(base
        .host_aliases
        .contains(&("c".to_owned(), "bzlmod_c_".to_owned())));
    let shown = bzlmod_module_inspection_value(&graph).unwrap();
    assert!(shown.errors.is_empty());
    assert!(shown.modules_index.get(&"b".to_owned()).is_some());
}

#[test]
fn modules_resolve_to_cells_with_aliases_and_toolchains() {
    let root = root_inputs();
    let graph = graph(&root);
    let mut usages = KeyMap::new();
    for (id, _) in &graph.extension_unique_names.entries {
        usages.insert(id.duplicate(), "{}".to_owned());
    }
    let resolved = resolve_bcr_modules_from_dep_graph(
        "https://registry",
        &graph,
        &root.archive_overrides,
        &root.single_version_overrides,
        &root.local_path_overrides,
        &usages,
    )
    .unwrap();
    let cells: Vec<&str> = resolved
        .external_modules
        .iter()
        .map(|module| match module {
            ResolvedExternalModule::Registry(m) => m.cell_name.as_str(),
            ResolvedExternalModule::Generated(m) => m.cell_name.as_str(),
        })
        .collect();
    for cell in ["bzlmod_a_", "bzlmod_b_", "bzlmod_c_", "bzlmod_b__ext_made"] {
        assert!(cells.contains(&cell), "{:?}", cells);
    }
    assert!(resolved
        .registered_toolchains
        .contains(&"bzlmod_c_//:tc".to_owned()));
    let aliases = bzlmod_resolved_aliases(
        &root,
        Vec::new(),
        resolved.root_aliases,
        resolved.cell_aliases,
        resolved.registered_toolchains,
    );
    assert!(aliases.root_aliases.contains(&BazelCompatCellAlias {
        alias: "a".to_owned(),
        cell_name: "bzlmod_a_".to_owned(),
    }));
}

#[test]
fn discovery_asks_for_each_module_once() {
    let root = root_inputs();
    let mut discovery = Discovery::start(&root);
    assert_eq!(discovery.frontier, vec![key("a", "1.0"), key("b", "2.0")]);
    let modules = graph_modules();
    let find = |keys: &Vec<(String, String)>| -> Vec<DiscoveredBcrModule> {
        keys.iter()
            .map(|key| modules.get(key).unwrap().duplicate())
            .collect()
    };
    let found = find(&discovery.frontier);
    discovery.advance(&root, &found);
    assert_eq!(discovery.frontier, vec![key("b", "1.0"), key("c", "1.0")]);
    let found = find(&discovery.frontier);
    discovery.advance(&root, &found);
    assert!(discovery.frontier.is_empty());
    assert_eq!(discovery.discovered.entries.len(), 4);
}

#[test]
fn yanked_versions_are_refused_unless_allowed() {
    let nothing = KeyMap::new();
    let local = KeyMap::new();
    let mut registry = BzlmodRegistryValue {
        url: "https://r".to_owned(),
        registry_file_hashes: KeyMap::new(),
        selected_yanked_versions: KeyMap::new(),
    };
    let strict = bzlmod_allowed_yanked_versions_from_env(None).unwrap();
    let selection = selected();
    let queries =
        bzlmod_yanked_version_queries(&selection.selected_keys, &nothing, &local, &registry, &strict)
            .unwrap();
    assert_eq!(queries, vec!["a", "b", "c"]);
    registry
        .registry_file_hashes
        .insert("https://r/modules/a/1.0/source.json".to_owned(), None);
    registry
        .selected_yanked_versions
        .insert(key("b", "2.0"), "bad".to_owned());
    assert!(bzlmod_yanked_version_queries(
        &selection.selected_keys,
        &nothing,
        &local,
        &registry,
        &strict
    )
    .is_err());
    let allowed = bzlmod_allowed_yanked_versions_from_env(Some("b@2.0")).unwrap();
    assert_eq!(
        bzlmod_yanked_version_queries(
            &selection.selected_keys,
            &nothing,
            &local,
            &registry,
            &allowed
        )
        .unwrap(),
        vec!["c"]
    );
    let mut yanked = KeyMap::new();
    yanked.insert("1.0".to_owned(), "old".to_owned());
    let replies = vec![("c".to_owned(), Some(yanked)), ("a".to_owned(), None)];
    assert!(bzlmod_check_yanked_replies(&selection, &replies, &strict).is_err());
    let all: BzlmodAllowedYankedVersionsValue =
        bzlmod_allowed_yanked_versions_from_env(Some("all")).unwrap();
    assert!(bzlmod_check_yanked_replies(&selection, &replies, &all).is_ok());
    assert!(bzlmod_allowed_yanked_versions_from_env(Some("nonsense")).is_err());
}

#[test]
fn module_files_come_from_directories_archives_or_registries() {
    let root = inputs(&[
        (
            "MODULE.bazel",
            r#"module(name = "r")
local_path_override(module_name = "l", path = "l")
archive_override(module_name = "z", urls = ["https://z"], integrity = "sha256-x")
single_version_override(module_name = "s", patches = ["//:s.patch"], patch_strip = 2)
"#,
        ),
        ("l/MODULE.bazel", ""),
        ("s.patch", "x"),
    ])
    .ok()
    .unwrap();
    let source = |name: &str| bzlmod_module_file_source(&root, "https://r", &dep(name, "1.0"));
    assert!(matches!(source("l"), ModuleFileSource::Local(_)));
    assert!(matches!(source("z"), ModuleFileSource::Archive(_)));
    match source("s") {
        ModuleFileSource::Registry { url, cache_path } => {
            assert_eq!(url, "https://r/modules/s/1.0/MODULE.bazel");
            assert!(cache_path.starts_with("buck-out/v2/cache/bzlmod_bcr_discovery/"));
            assert!(cache_path.ends_with("/MODULE.bazel"));
        }
        _ => panic!("expected a registry"),
    }
    let json = |name: &str| bzlmod_source_json_source(&root, "https://r", &dep(name, "1.0"));
    match json("z") {
        SourceJsonSource::Known(source) => assert_eq!(source.url, "https://z"),
        _ => panic!("expected a known source"),
    }
    match json("l") {
        SourceJsonSource::Known(source) => assert_eq!(source, empty_bcr_source_json()),
        _ => panic!("expected a known source"),
    }
    assert!(matches!(json("s"), SourceJsonSource::Registry { .. }));
    let (patches, strip) = bzlmod_module_file_patches(&root, &dep("s", "1.0")).unwrap();
    assert_eq!((patches.len(), strip), (1, 2));
    assert!(bzlmod_module_file_patches(&root, &dep("z", "1.0")).is_none());
}

#[test]
fn test_bzlmod_lockfile_extension_generated_repos() {
    let lockfile: serde_json::Value = serde_json::from_str(
        r#"{
  "facts": {
    "@@rules_go+//go:extensions.bzl%go_sdk": {
      "1.23.5": {}
    }
  },
  "moduleExtensions": {
    "@@rules_go+//go:extensions.bzl%go_sdk": {
      "general": {
        "generatedRepoSpecs": {
          "go_toolchains": {},
          "main___download_0": {}
        }
      },
      "os:darwin": {
        "generatedRepoSpecs": {
          "darwin_only": {}
        }
      }
    },
    "@@googleapis+//:extensions.bzl%switched_rules": {
      "general": {
        "generatedRepoSpecs": {}
      }
    }
  }
}
"#,
    )
    .unwrap();
    let keys = |value: &serde_json::Value| -> Vec<String> {
        value.as_object().unwrap().keys().cloned().collect()
    };
    let extensions: Vec<(String, Vec<Vec<String>>)> = lockfile["moduleExtensions"]
        .as_object()
        .unwrap()
        .iter()
        .map(|(name, evaluations)| {
            (
                name.clone(),
                evaluations
                    .as_object()
                    .unwrap()
                    .values()
                    .map(|evaluation| keys(&evaluation["generatedRepoSpecs"]))
                    .collect(),
            )
        })
        .collect();
    let lockfile_data = bzlmod_lockfile_data(
        KeyMap::new(),
        &Vec::new(),
        &extensions,
        &keys(&lockfile["facts"]),
    );
    let repos = lockfile_data.extension_generated_repos;

    assert_eq!(
        repos
            .get(&"@@rules_go+//go:extensions.bzl%go_sdk".to_owned())
            .unwrap()
            .items,
        vec![
            "darwin_only".to_owned(),
            "go_toolchains".to_owned(),
            "main___download_0".to_owned(),
        ]
    );
    assert!(lockfile_data
        .extension_facts
        .contains(&"@@rules_go+//go:extensions.bzl%go_sdk".to_owned()));
    assert_eq!(
        repos
            .get(&"@@googleapis+//:extensions.bzl%switched_rules".to_owned())
            .unwrap(),
        &KeySet::new()
    );
}

#[test]
fn locked_versions_are_split_at_the_last_mark() {
    let data = bzlmod_lockfile_data(
        KeyMap::new(),
        &vec![key("a@b@1.0", "why"), key("nothing", "x")],
        &Vec::new(),
        &Vec::new(),
    );
    assert_eq!(
        data.selected_yanked_versions.entries,
        vec![(key("a@b", "1.0"), "why".to_owned())]
    );
}

fn registry_module(name: &str, local: bool) -> BazelCompatExternalModule {
    BazelCompatExternalModule::Registry(BazelCompatRegistryModule {
        cell_name: bzlmod_cell_name(name),
        aliases: Vec::new(),
        module_name: name.to_owned(),
        version: String::new(),
        canonical_repo_name: name.to_owned(),
        local_path: if local { Some("p".to_owned()) } else { None },
        url: String::new(),
        urls_json: "[]".to_owned(),
        integrity: String::new(),
        strip_prefix: None,
        archive_type: None,
        patches_json: "[]".to_owned(),
        overlays_json: "[]".to_owned(),
        patch_strip: 0,
    })
}

#[test]
fn vendoring_leaves_out_local_and_configured_repositories() {
    let host = BazelCompatExternalModule::Generated(BazelCompatGeneratedModule {
        cell_name: "bzlmod_host".to_owned(),
        aliases: Vec::new(),
        canonical_repo_name: "host".to_owned(),
        generator_json: "{}".to_owned(),
    });
    let modules = vec![
        registry_module("b", false),
        registry_module("a", false),
        registry_module("l", true),
        registry_module("x+r", false),
        host,
    ];
    let generators = vec![
        None,
        None,
        None,
        None,
        Some(BzlmodGeneratedCellGenerator::HostPlatform(
            BzlmodHostPlatformSetup {},
        )),
    ];
    let generated = vec![("x".to_owned(), vec!["r".to_owned(), "unknown".to_owned()])];
    assert_eq!(
        bzlmod_repos_to_vendor(&modules, &generators, &generated, false),
        vec!["a", "b", "x+r"]
    );
    assert!(bzlmod_repos_to_vendor(&modules, &generators, &generated, true).is_empty());
    assert_eq!(
        bzlmod_repository_directory(&modules, &generators, "host"),
        (true, true)
    );
    assert_eq!(
        bzlmod_repository_directory(&modules, &generators, "nowhere"),
        (false, true)
    );
    let (found, configure) = bzlmod_repo_definition(&modules, &generators, "host");
    assert!(found.is_some() && configure);
}

#[test]
fn environments_report_what_changed() {
    let mut vars = KeyMap::new();
    vars.insert("A".to_owned(), "1".to_owned());
    vars.insert("B".to_owned(), "2".to_owned());
    let known = vec![
        ("A".to_owned(), Some(Some("1".to_owned()))),
        ("B".to_owned(), Some(Some("old".to_owned()))),
        ("C".to_owned(), Some(None)),
        ("D".to_owned(), None),
    ];
    assert_eq!(
        set_bzlmod_repository_environment(&known, &vars),
        vec![("B".to_owned(), Some("2".to_owned())), ("D".to_owned(), None)]
    );
    let mut data = BzlmodRepositoryEnvironmentData {
        vars: KeyMap::new(),
    };
    data.set_bzlmod_repository_environment_data(vars);
    assert_eq!(
        data.get_bzlmod_repository_environment_variable("A").as_deref(),
        Some("1")
    );
    assert_eq!(data.get_bzlmod_repository_environment_variable("C"), None);
}

#[test]
fn patches_are_split_into_files() {
    let patch = "diff --git a/x b/MODULE.bazel\n--- a/x\n+++ b/MODULE.bazel\n@@\n--- a/y\n+++ b/y\n@@";
    let chunks = split_patch_chunks(patch);
    assert_eq!(chunks.len(), 2);
    assert_eq!(
        patch_chunk_paths(&chunks[0]),
        vec!["a/x", "b/MODULE.bazel", "a/x", "b/MODULE.bazel"]
    );
    assert_eq!(
        bzlmod_patch_paths(patch),
        vec!["a/x", "b/MODULE.bazel", "a/x", "b/MODULE.bazel", "a/y", "b/y"]
    );
}

#[test]
fn module_files_see_their_parts_of_patches() {
    let patch = "diff --git a/x b/MODULE.bazel\n--- a/x\n+++ b/MODULE.bazel\n@@\n--- a/y\n+++ b/y\n@@";
    let mut stripped = KeyMap::new();
    for path in ["a/x", "a/y", "b/y"] {
        stripped.insert(path.to_owned(), Some(path[2..].to_owned()));
    }
    assert_eq!(filter_bzlmod_module_file_patch(patch, &stripped), None);
    stripped.insert("b/MODULE.bazel".to_owned(), Some("MODULE.bazel".to_owned()));
    let filtered = "diff --git a/x b/MODULE.bazel\n--- a/x\n+++ b/MODULE.bazel\n@@\n";
    assert_eq!(
        filter_bzlmod_module_file_patch(patch, &stripped).as_deref(),
        Some(filtered)
    );
    let chunks = split_patch_chunks(patch);
    assert!(bzlmod_patch_chunk_touches_module_file(&chunks[0], &stripped));
    assert!(!bzlmod_patch_chunk_touches_module_file(&chunks[1], &stripped));
    let patches = ["--- a/y\n+++ b/y\n", patch, ""]
        .iter()
        .map(|content| BzlmodRootPatch {
            path: "p".to_owned(),
            content: content.to_string(),
        })
        .collect();
    assert_eq!(
        next_bzlmod_module_file_patch(&patches, 0, &stripped),
        Some((1, filtered.to_owned()))
    );
    assert_eq!(next_bzlmod_module_file_patch(&patches, 2, &stripped), None);
}

#[test]
fn archives_are_fetched_from_one_address_after_another() {
    let urls = vec!["https://a".to_owned(), "https://b".to_owned()];
    assert!(matches!(
        next_archive_download(&urls, &Vec::new()),
        ArchiveDownload::Fetch("https://a")
    ));
    let mut failures = vec!["404".to_owned()];
    assert!(matches!(
        next_archive_download(&urls, &failures),
        ArchiveDownload::Fetch("https://b")
    ));
    failures.push("503".to_owned());
    assert!(matches!(
        next_archive_download(&urls, &failures),
        ArchiveDownload::GiveUp(cause) if cause == "503"
    ));
    assert!(matches!(
        next_archive_download(&Vec::new(), &Vec::new()),
        ArchiveDownload::GiveUp(cause) if cause == "no URL provided"
    ));
}

#[test]
fn archives_have_to_have_the_right_digest() {
    assert!(verify_bzlmod_archive_digest("u", &vec![1, 2], &vec![1, 2]).is_ok());
    assert_eq!(
        verify_bzlmod_archive_digest("u", &vec![0x0f], &vec![0xa0, 1])
            .err()
            .unwrap()
            .message,
        "archive_override integrity mismatch for `u`: expected 0f, got a001"
    );
    assert_eq!(
        bazel_compat::digest::sha256_hex("foobar"),
        "c3ab8ff13720e8ad9047dd39466b3c8974e592c2fa383d4a3960714caef0c4f2"
    );
}

#[test]
fn vendor_files_list_repositories() {
    let lines: Vec<String> = ["ignore(\"@@b\", \"@@a\")", "pin(\"@@c\")", "ignore(\"@@b\")"]
        .iter()
        .map(|line| line.to_string())
        .collect();
    assert_eq!(bzlmod_vendor_repos_from_calls(&lines, "ignore("), vec!["@@a", "@@b"]);
    assert_eq!(bzlmod_vendor_repos_from_calls(&lines, "pin("), vec!["@@c"]);
    assert_eq!(sanitize_bzlmod_temp_name("a/b-c_1"), "a_b-c_1");
}

#[test]
fn object_formats_are_parsed_and_checked() {
    assert_eq!(GitObjectFormat::parse("sha1").unwrap(), GitObjectFormat::Sha1);
    assert_eq!(GitObjectFormat::Sha256.display(), "sha256");
    assert!(GitObjectFormat::parse("md5").is_err());
    let sha1 = "0123456789abcdef0123456789abcdef01234567";
    assert!(GitObjectFormat::Sha1.check(sha1).is_ok());
    assert!(GitObjectFormat::Sha256.check(sha1).is_err());
}

#[test]
fn registries_start_empty() {
    let registry = ExternalCellRegistry::new();
    assert!(bazel_compat::external::bzlmod_all_cell_aliases(&registry).is_empty());
    let source: BcrSourceJson = empty_bcr_source_json();
    assert!(source.urls.is_none());
}

#[test]
fn discovery_ends_once_every_dependency_was_found() {
    let root = root_inputs();
    let mut discovery = Discovery::start(&root);
    let known = graph_modules();
    let mut waves = 0;
    while !discovery.frontier.is_empty() {
        let modules: Vec<DiscoveredBcrModule> = discovery
            .frontier
            .iter()
            .map(|key| known.get(key).unwrap().duplicate())
            .collect();
        discovery.advance(&root, &modules);
        waves += 1;
    }
    assert!(waves > 1);
    for (_, module) in &discovery.discovered.entries {
        for dep in &module.deps {
            let key = (dep.name.clone(), dep.version.clone());
            assert!(discovery.discovered.contains_key(&key), "{key:?}");
        }
    }
}
