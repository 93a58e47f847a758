use bazel_compat::extension_repos::resolve_bzlmod_extension_usage_generated_repos;
use bazel_compat::external::{
    bzlmod_cell_name, BzlmodBazelFeaturesVersionSetup, BzlmodGeneratedCellGenerator,
    BzlmodHostPlatformSetup,
};
use bazel_compat::generated::add_generated_bzlmod_repo_with_mapping_cell;
use bazel_compat::labels::{add_bzlmod_cell_alias, bzlmod_cell_alias_target};
use bazel_compat::module::{
    BzlmodExtensionId, BzlmodExtensionTag, BzlmodExtensionUsage, BzlmodRepoOverride,
    BzlmodUseRepoImport, RootBzlmodModule,
};
use bazel_compat::module_aliases::bzlmod_external_module_is_configure_repo;
use bazel_compat::ordered::{Duplicate, KeyMap, KeySet};
use bazel_compat::resolve::add_generated_bzlmod_repo_mappings;
use bazel_compat::resolved::{
    BazelCompatExternalModule, BazelCompatGeneratedModule, GeneratedRepos,
};

fn no_repos(aliases: KeyMap<String, KeyMap<String, String>>) -> GeneratedRepos {
    GeneratedRepos {
        aliases,
        modules: Vec::new(),
        declaring_cells: Vec::new(),
        repo_groups: KeyMap::new(),
        override_groups: KeyMap::new(),
    }
}

fn root_module(name: &str, extension_usages: Vec<BzlmodExtensionUsage>) -> RootBzlmodModule {
    RootBzlmodModule {
        name: name.to_owned(),
        version: String::new(),
        repo_name: name.to_owned(),
        canonical_repo_name: String::new(),
        lockfile_extension_generated_repos: KeyMap::new(),
        lockfile_extension_facts: KeySet::new(),
        constants: Vec::new(),
        extension_usages,
        use_repo_rule_invocations: Vec::new(),
        registered_toolchains: Vec::new(),
    }
}

fn npm_id() -> BzlmodExtensionId {
    BzlmodExtensionId {
        bzl_cell_name: "bzlmod_aspect_rules_js_".to_owned(),
        bzl_path: "npm/extensions.bzl".to_owned(),
        extension_name: "npm".to_owned(),
    }
}

fn one_entry<K: bazel_compat::ordered::OrderedKey>(key: K, value: &str) -> KeyMap<K, String> {
    KeyMap {
        entries: vec![(key, value.to_owned())],
    }
}

const NO_USAGES: &str =
    "{\"root_module_has_non_dev_dependency\":false,\"modules\":[],\"usages\":[],\"repo_overrides\":[]}";

#[test]
fn test_bzlmod_configure_repo_detection_uses_structured_generator_kind() {
    fn generated(canonical_repo_name: &str, generator_json: String) -> BazelCompatExternalModule {
        BazelCompatExternalModule::Generated(BazelCompatGeneratedModule {
            cell_name: bzlmod_cell_name(canonical_repo_name),
            aliases: Vec::new(),
            canonical_repo_name: canonical_repo_name.to_owned(),
            generator_json,
        })
    }

    assert!(bzlmod_external_module_is_configure_repo(
        &generated(
            "platforms+host_platform+host_platform",
            "{\"kind\":\"host_platform\"}".to_owned()
        ),
        &Some(BzlmodGeneratedCellGenerator::HostPlatform(
            BzlmodHostPlatformSetup {}
        )),
    ));
    assert!(!bzlmod_external_module_is_configure_repo(
        &generated(
            "rules_example+toolchain_config_repo",
            "{\"kind\":\"bazel_features_version\",\"bazel_version\":\"9.1.0\"}".to_owned()
        ),
        &Some(BzlmodGeneratedCellGenerator::BazelFeaturesVersion(
            BzlmodBazelFeaturesVersionSetup {
                bazel_version: "9.1.0".to_owned(),
            }
        )),
    ));
    assert!(!bzlmod_external_module_is_configure_repo(
        &generated("rules_example+configure_repo", "{".to_owned()),
        &None,
    ));
}

#[test]
fn test_bzlmod_extension_generated_repos_inherit_extension_host_repo_mapping() {
    let mut cell_aliases_by_cell = KeyMap::new();
    let gazelle_cell = bzlmod_cell_name("gazelle+");
    let package_metadata_cell = bzlmod_cell_name("package_metadata+");
    add_bzlmod_cell_alias(
        &mut cell_aliases_by_cell,
        &gazelle_cell,
        "package_metadata",
        &package_metadata_cell,
    );

    let mut repos = no_repos(cell_aliases_by_cell);
    let generated_cell_name = add_generated_bzlmod_repo_with_mapping_cell(
        &mut repos,
        "root",
        "com_github_example_dep",
        &gazelle_cell,
        "gazelle++go_deps+com_github_example_dep",
        BzlmodGeneratedCellGenerator::HostPlatform(BzlmodHostPlatformSetup {}),
    );
    repos.repo_groups.insert(
        "gazelle++go_deps".to_owned(),
        vec![(
            "com_github_example_dep".to_owned(),
            generated_cell_name.clone(),
        )],
    );
    repos.override_groups.insert(
        "gazelle++go_deps".to_owned(),
        vec![(
            "com_github_buildbuddy_io_buildbuddy".to_owned(),
            "root".to_owned(),
        )],
    );

    add_generated_bzlmod_repo_mappings(&mut repos);

    let aliases = &repos.aliases;
    assert_eq!(
        bzlmod_cell_alias_target(aliases, "root", "com_github_example_dep"),
        Some(generated_cell_name.as_str())
    );
    assert_eq!(
        bzlmod_cell_alias_target(aliases, &generated_cell_name, "package_metadata"),
        Some(package_metadata_cell.as_str())
    );
    assert_eq!(
        bzlmod_cell_alias_target(
            aliases,
            &generated_cell_name,
            "com_github_buildbuddy_io_buildbuddy"
        ),
        Some("root")
    );
    assert_eq!(
        bzlmod_cell_alias_target(aliases, &generated_cell_name, "com_github_example_dep"),
        Some(generated_cell_name.as_str())
    );
}

#[test]
fn test_bzlmod_extension_without_lockfile_uses_static_repos() {
    let usage = BzlmodExtensionUsage {
        proxy_name: "npm".to_owned(),
        extension_bzl_file: "@aspect_rules_js//npm:extensions.bzl".to_owned(),
        extension_name: "npm".to_owned(),
        dev_dependency: false,
        imports: vec![BzlmodUseRepoImport {
            alias: "npm".to_owned(),
            repo_name: "npm".to_owned(),
        }],
        repo_overrides: Vec::new(),
        tags: vec![BzlmodExtensionTag {
            tag_name: "npm_translate_lock".to_owned(),
            bindings: Vec::new(),
            kwargs: vec![("name".to_owned(), "\"npm\"".to_owned())],
        }],
    };
    let root_module = root_module("buildbuddy", vec![usage.duplicate()]);

    let mut cell_aliases_by_cell = KeyMap::new();
    add_bzlmod_cell_alias(
        &mut cell_aliases_by_cell,
        "root",
        "aspect_rules_js",
        "bzlmod_aspect_rules_js_",
    );
    let mut repos = no_repos(cell_aliases_by_cell);

    resolve_bzlmod_extension_usage_generated_repos(
        &usage,
        "",
        "root",
        true,
        &root_module,
        &one_entry("bzlmod_aspect_rules_js_".to_owned(), "aspect_rules_js+"),
        &one_entry(npm_id(), "aspect_rules_js++npm"),
        &one_entry(npm_id(), NO_USAGES),
        &mut repos,
    )
    .unwrap();

    assert_eq!(
        bzlmod_cell_alias_target(&repos.aliases, "root", "npm"),
        Some("bzlmod_aspect_rules_js__npm_npm")
    );
}

#[test]
fn test_bzlmod_root_tag_only_extension_without_lockfile_stays_demand_driven() {
    let usage = BzlmodExtensionUsage {
        proxy_name: "go_sdk".to_owned(),
        extension_bzl_file: "@io_bazel_rules_go//go:extensions.bzl".to_owned(),
        extension_name: "go_sdk".to_owned(),
        dev_dependency: false,
        imports: Vec::new(),
        repo_overrides: Vec::new(),
        tags: vec![BzlmodExtensionTag {
            tag_name: "download".to_owned(),
            bindings: Vec::new(),
            kwargs: vec![("version".to_owned(), "\"1.24.0\"".to_owned())],
        }],
    };
    let root_module = root_module("bazelisk", vec![usage.duplicate()]);

    let rules_go_cell = bzlmod_cell_name("rules_go+");
    let mut cell_aliases_by_cell = KeyMap::new();
    add_bzlmod_cell_alias(
        &mut cell_aliases_by_cell,
        "root",
        "io_bazel_rules_go",
        &rules_go_cell,
    );
    let id = BzlmodExtensionId {
        bzl_cell_name: rules_go_cell.clone(),
        bzl_path: "go/extensions.bzl".to_owned(),
        extension_name: "go_sdk".to_owned(),
    };
    let mut repos = no_repos(cell_aliases_by_cell);

    resolve_bzlmod_extension_usage_generated_repos(
        &usage,
        "",
        "root",
        true,
        &root_module,
        &one_entry(rules_go_cell, "rules_go+"),
        &one_entry(id.duplicate(), "rules_go++go_sdk"),
        &one_entry(id, NO_USAGES),
        &mut repos,
    )
    .unwrap();

    assert!(repos.modules.is_empty());
}

#[test]
fn test_bzlmod_non_root_extension_without_lockfile_uses_static_repos() {
    let usage = BzlmodExtensionUsage {
        proxy_name: "npm".to_owned(),
        extension_bzl_file: "@aspect_rules_js//npm:extensions.bzl".to_owned(),
        extension_name: "npm".to_owned(),
        dev_dependency: false,
        imports: vec![BzlmodUseRepoImport {
            alias: "npm".to_owned(),
            repo_name: "npm".to_owned(),
        }],
        repo_overrides: Vec::new(),
        tags: Vec::new(),
    };
    let root_module = root_module("buildbuddy", Vec::new());

    let mut cell_aliases_by_cell = KeyMap::new();
    add_bzlmod_cell_alias(
        &mut cell_aliases_by_cell,
        "bzlmod_dep_",
        "aspect_rules_js",
        "bzlmod_aspect_rules_js_",
    );
    let mut repos = no_repos(cell_aliases_by_cell);

    resolve_bzlmod_extension_usage_generated_repos(
        &usage,
        "dep+",
        "bzlmod_dep_",
        false,
        &root_module,
        &one_entry("bzlmod_aspect_rules_js_".to_owned(), "aspect_rules_js+"),
        &one_entry(npm_id(), "aspect_rules_js++npm"),
        &one_entry(npm_id(), NO_USAGES),
        &mut repos,
    )
    .unwrap();

    assert_eq!(
        bzlmod_cell_alias_target(&repos.aliases, "bzlmod_dep_", "npm"),
        Some("bzlmod_aspect_rules_js__npm_npm")
    );
}

#[test]
fn extension_repos_carry_the_key_of_their_usages() {
    let usage = BzlmodExtensionUsage {
        proxy_name: "npm".to_owned(),
        extension_bzl_file: "@aspect_rules_js//npm:extensions.bzl".to_owned(),
        extension_name: "npm".to_owned(),
        dev_dependency: false,
        imports: vec![BzlmodUseRepoImport {
            alias: "npm".to_owned(),
            repo_name: "npm".to_owned(),
        }],
        repo_overrides: Vec::new(),
        tags: Vec::new(),
    };
    let mut cell_aliases_by_cell = KeyMap::new();
    add_bzlmod_cell_alias(
        &mut cell_aliases_by_cell,
        "root",
        "aspect_rules_js",
        "bzlmod_aspect_rules_js_",
    );
    let mut repos = no_repos(cell_aliases_by_cell);
    resolve_bzlmod_extension_usage_generated_repos(
        &usage,
        "",
        "root",
        true,
        &root_module("demo", Vec::new()),
        &one_entry("bzlmod_aspect_rules_js_".to_owned(), "aspect_rules_js+"),
        &one_entry(npm_id(), "aspect_rules_js++npm"),
        &one_entry(npm_id(), "foobar"),
        &mut repos,
    )
    .unwrap();
    let generator = match &repos.modules[0] {
        bazel_compat::resolved::ResolvedExternalModule::Generated(module) => &module.generator,
        _ => panic!("expected a generated module"),
    };
    match generator {
        BzlmodGeneratedCellGenerator::ModuleExtensionRepo(setup) => {
            assert_eq!(
                setup.extension_usages_key,
                "aa51dcd43d5c6c5203ee16906fd6b35db298b9b2e1de3fce81811d4806b76b7d"
            );
            assert_eq!(setup.extension_usages_json, "foobar");
        }
        other => panic!("unexpected generator {:?}", other),
    }
}

#[test]
fn a_usage_that_fails_keeps_what_was_there() {
    let import = |name: &str| BzlmodUseRepoImport {
        alias: name.to_owned(),
        repo_name: name.to_owned(),
    };
    let usage = BzlmodExtensionUsage {
        proxy_name: "npm".to_owned(),
        extension_bzl_file: "@aspect_rules_js//npm:extensions.bzl".to_owned(),
        extension_name: "npm".to_owned(),
        dev_dependency: false,
        imports: vec![import("npm"), import("given"), import("late")],
        repo_overrides: vec![BzlmodRepoOverride {
            repo_name: "given".to_owned(),
            overriding_repo_name: "aspect_rules_js".to_owned(),
            must_exist: false,
        }],
        tags: Vec::new(),
    };
    let mut cell_aliases_by_cell = KeyMap::new();
    add_bzlmod_cell_alias(
        &mut cell_aliases_by_cell,
        "root",
        "aspect_rules_js",
        "bzlmod_aspect_rules_js_",
    );
    let mut repos = no_repos(cell_aliases_by_cell);
    let mut resolve = |usages_of: BzlmodExtensionId| {
        let error = resolve_bzlmod_extension_usage_generated_repos(
            &usage,
            "",
            "root",
            true,
            &root_module("demo", Vec::new()),
            &one_entry("bzlmod_aspect_rules_js_".to_owned(), "aspect_rules_js+"),
            &one_entry(npm_id(), "aspect_rules_js++npm"),
            &one_entry(usages_of, NO_USAGES),
            &mut repos,
        )
        .err()
        .unwrap();
        let aliases: Vec<String> = repos.aliases.entries[0]
            .1
            .entries
            .iter()
            .map(|(alias, _)| alias.clone())
            .collect();
        (error.message, aliases, repos.modules.len())
    };
    let mut other = npm_id();
    other.extension_name = "other".to_owned();
    let (message, aliases, modules) = resolve(other);
    assert!(message.ends_with("has no single-extension usages value"), "{message}");
    assert_eq!((aliases, modules), (vec!["aspect_rules_js".to_owned()], 0));
    let (message, aliases, modules) = resolve(npm_id());
    assert!(message.contains("imports injected repository `given`"), "{message}");
    assert_eq!(
        (aliases, modules),
        (vec!["aspect_rules_js".to_owned(), "npm".to_owned()], 1)
    );
}
