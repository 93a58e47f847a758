use bazel_compat::blocks::{bzlmod_module_constants_from_lines, collect_bzl_calls};
use bazel_compat::external::bzlmod_cell_name;
use bazel_compat::generated::bzlmod_extension_tag_repo_names;
use bazel_compat::labels::{
    add_bzlmod_cell_alias, bzlmod_lockfile_extension_key, qualify_bzlmod_registered_toolchain,
};
use bazel_compat::module::{BzlmodExtensionId, RootBzlmodModule};
use bazel_compat::module_overrides::{
    bzlmod_archive_override_from_call, bzlmod_single_version_override_from_call,
};
use bazel_compat::module_rules::{
    bzlmod_registered_toolchains_from_lines, bzlmod_use_repo_rule_invocations_from_lines,
    validate_bzlmod_module_lines,
};
use bazel_compat::module_usages::bzlmod_extension_usages_from_lines;
use bazel_compat::ordered::{KeyMap, KeySet};
use bazel_compat::resolution::resolve_bzlmod_registered_toolchains;

#[test]
fn test_bzlmod_module_validation_rejects_load() {
    let lines = vec![
        "module(name = \"demo\")".to_owned(),
        "load(\"//:defs.bzl\", \"dep\")".to_owned(),
    ];
    assert!(validate_bzlmod_module_lines("MODULE.bazel", &lines).is_err());
}

#[test]
fn test_bzlmod_single_version_override_allows_patches_without_version() {
    let (_, override_config) = bzlmod_single_version_override_from_call(
        "MODULE.bazel",
        r#"single_version_override(
    module_name = "grpc-java",
    patch_strip = 1,
    patches = [
        "//third_party:grpc-java.patch",
        "//third_party:grpc-java-addloads.patch",
    ],
)
"#,
        &Vec::new(),
    )
    .unwrap()
    .unwrap();

    assert_eq!(override_config.version, None);
    assert_eq!(override_config.patch_strip, Some(1));
    assert_eq!(
        override_config
            .patches
            .iter()
            .map(|patch| patch.path.as_str())
            .collect::<Vec<_>>(),
        vec![
            "third_party/grpc-java.patch",
            "third_party/grpc-java-addloads.patch",
        ]
    );
}

#[test]
fn test_bzlmod_archive_override_preserves_url_mirror_order() {
    let archive_override = bzlmod_archive_override_from_call(
        "MODULE.bazel",
        r#"archive_override(
    module_name = "example",
    url = "https://primary.example.com/source.tar.gz",
    urls = [
        "https://mirror1.example.com/source.tar.gz",
        "https://mirror2.example.com/source.tar.gz",
    ],
)
"#,
        &Vec::new(),
    )
    .unwrap();

    assert_eq!(
        archive_override.urls,
        vec![
            "https://primary.example.com/source.tar.gz",
            "https://mirror1.example.com/source.tar.gz",
            "https://mirror2.example.com/source.tar.gz",
        ]
    );
}

#[test]
fn test_bzlmod_archive_override_resolves_module_constants() {
    let lines = r#"COMMIT = "abc123"

archive_override(
    module_name = "example",
    strip_prefix = "example-{}".format(COMMIT),
    urls = ["https://example.com/{}.tar.gz".format(COMMIT)],
)
"#
    .lines()
    .map(str::to_owned)
    .collect::<Vec<_>>();
    let constants = bzlmod_module_constants_from_lines(&lines);
    let call = collect_bzl_calls(&lines, "archive_override(")
        .into_iter()
        .next()
        .unwrap();

    let archive_override =
        bzlmod_archive_override_from_call("MODULE.bazel", &call, &constants).unwrap();

    assert_eq!(
        archive_override.strip_prefix.as_deref(),
        Some("example-abc123")
    );
    assert_eq!(
        archive_override.urls,
        vec!["https://example.com/abc123.tar.gz"]
    );
}

#[test]
fn test_bzlmod_single_version_override_rejects_patch_cmds() {
    let error = bzlmod_single_version_override_from_call(
        "MODULE.bazel",
        r#"single_version_override(
    module_name = "example",
    patch_cmds = ["echo patched"],
)
"#,
        &Vec::new(),
    )
    .unwrap_err();

    let error = format!("{error:?}");
    assert!(error.contains("unsupported `patch_cmds`"), "error: {error}");
}

#[test]
fn test_bzlmod_single_version_override_rejects_registry() {
    let error = bzlmod_single_version_override_from_call(
        "MODULE.bazel",
        r#"single_version_override(
    module_name = "example",
    registry = "https://registry.example.com",
)
"#,
        &Vec::new(),
    )
    .unwrap_err();

    let error = format!("{error:?}");
    assert!(error.contains("unsupported `registry`"), "error: {error}");
}

#[test]
fn test_bzlmod_extension_tags_expand_simple_list_comprehensions() {
    let lines = r#"SUPPORTED_PYTHON_VERSIONS = [
    "3.11",
    "3.12",
]

python = use_extension("@rules_python//python/extensions:python.bzl", "python")

[
    python.toolchain(
        is_default = python_version == SUPPORTED_PYTHON_VERSIONS[-1],
        python_version = python_version,
    )
    for python_version in SUPPORTED_PYTHON_VERSIONS
]
"#
    .lines()
    .map(str::to_owned)
    .collect::<Vec<_>>();

    let constants = bzlmod_module_constants_from_lines(&lines);
    assert_eq!(
        constants,
        vec![(
            "SUPPORTED_PYTHON_VERSIONS".to_owned(),
            "[\n    \"3.11\",\n    \"3.12\",\n]".to_owned()
        )]
    );
    let usages = bzlmod_extension_usages_from_lines(&lines, &constants, false);
    assert_eq!(usages.len(), 1);
    assert_eq!(usages[0].tags.len(), 2);
    assert_eq!(
        usages[0].tags[0].bindings,
        vec![("python_version".to_owned(), "\"3.11\"".to_owned())]
    );
    assert_eq!(
        usages[0].tags[1].bindings,
        vec![("python_version".to_owned(), "\"3.12\"".to_owned())]
    );
}

#[test]
fn test_bzlmod_extension_tags_preserve_bazel_evaluation_order() {
    let lines = r#"ext = use_extension("//:extensions.bzl", "ext")

ext.zeta(second = "2", first = "1")

[
    ext.alpha(version = version)
    for version in ["3.11", "3.12"]
]

ext.beta(name = "last")
"#
    .lines()
    .map(str::to_owned)
    .collect::<Vec<_>>();

    let constants = bzlmod_module_constants_from_lines(&lines);
    let usages = bzlmod_extension_usages_from_lines(&lines, &constants, false);
    assert_eq!(usages.len(), 1);
    assert_eq!(
        usages[0]
            .tags
            .iter()
            .map(|tag| tag.tag_name.as_str())
            .collect::<Vec<_>>(),
        vec!["zeta", "alpha", "alpha", "beta"]
    );
    assert_eq!(
        usages[0].tags[0].kwargs,
        vec![
            ("second".to_owned(), "\"2\"".to_owned()),
            ("first".to_owned(), "\"1\"".to_owned()),
        ]
    );
    assert_eq!(
        usages[0].tags[1].bindings,
        vec![("version".to_owned(), "\"3.11\"".to_owned())]
    );
    assert_eq!(
        usages[0].tags[2].bindings,
        vec![("version".to_owned(), "\"3.12\"".to_owned())]
    );
}

#[test]
fn test_bzlmod_extension_list_comprehensions_do_not_match_suffix_proxy_names() {
    let lines = r#"pip = use_extension("//python/extensions:pip.bzl", "pip")

[pip.parse(hub_name = "prod_pip", python_version = version) for version in ["3.11"]]

dev_pip = use_extension("//python/extensions:pip.bzl", "pip", dev_dependency = True)

[dev_pip.parse(hub_name = "dev_pip", python_version = version) for version in ["3.14"]]
"#
    .lines()
    .map(str::to_owned)
    .collect::<Vec<_>>();

    let constants = bzlmod_module_constants_from_lines(&lines);
    let usages = bzlmod_extension_usages_from_lines(&lines, &constants, true);
    assert_eq!(usages.len(), 1);
    assert_eq!(usages[0].proxy_name, "pip");
    assert_eq!(usages[0].tags.len(), 1);
    assert_eq!(
        usages[0].tags[0].kwargs,
        vec![
            ("hub_name".to_owned(), "\"prod_pip\"".to_owned()),
            ("python_version".to_owned(), "version".to_owned()),
        ]
    );
}

#[test]
fn test_bzlmod_rules_java_repo_list_comprehensions() {
    let lines = r#"JDKS = {
    "8": ["linux"],
    "25": ["macos_aarch64"],
}
REMOTE_JDK_REPOS = [
    (("remote_jdk" if version == "8" else "remotejdk") + version + "_" + platform)
    for version in JDKS
    for platform in JDKS[version]
]

toolchains = use_extension("//toolchains:extensions.bzl", "toolchains")

[use_repo(toolchains, repo + "_toolchain_config_repo") for repo in REMOTE_JDK_REPOS]
[register_toolchains("@" + name + "_toolchain_config_repo//:all") for name in REMOTE_JDK_REPOS]
"#
    .lines()
    .map(str::to_owned)
    .collect::<Vec<_>>();

    let constants = bzlmod_module_constants_from_lines(&lines);
    let usages = bzlmod_extension_usages_from_lines(&lines, &constants, false);
    assert_eq!(usages.len(), 1);
    let mut imports = usages[0]
        .imports
        .iter()
        .map(|import| (import.alias.clone(), import.repo_name.clone()))
        .collect::<Vec<_>>();
    imports.sort();
    assert_eq!(
        imports,
        vec![
            (
                "remote_jdk8_linux_toolchain_config_repo".to_owned(),
                "remote_jdk8_linux_toolchain_config_repo".to_owned()
            ),
            (
                "remotejdk25_macos_aarch64_toolchain_config_repo".to_owned(),
                "remotejdk25_macos_aarch64_toolchain_config_repo".to_owned()
            ),
        ]
    );

    assert_eq!(
        bzlmod_registered_toolchains_from_lines(&lines, false),
        vec![
            "@remote_jdk8_linux_toolchain_config_repo//:all".to_owned(),
            "@remotejdk25_macos_aarch64_toolchain_config_repo//:all".to_owned(),
        ]
    );
}

#[test]
fn test_bzlmod_use_repo_rule_attrs_resolve_module_constants() {
    let lines = r#"http_file = use_repo_rule("@bazel_tools//tools/build_defs/repo:http.bzl", "http_file")

_VERSION = "v1.2.3"
FILE_NAME = ("tool_" + _VERSION).replace(".", "_")
URL = "https://example.com/{version}/tool".format(version = _VERSION)
SHA256 = "abc123"

http_file(
    name = "tool",
    sha256 = SHA256,
    urls = [URL],
)
"#
    .lines()
    .map(str::to_owned)
    .collect::<Vec<_>>();

    let constants = bzlmod_module_constants_from_lines(&lines);
    let invocations =
        bzlmod_use_repo_rule_invocations_from_lines(&lines, &constants, false).unwrap();
    assert_eq!(invocations.len(), 1);
    assert_eq!(
        invocations[0].attrs,
        vec![
            ("sha256".to_owned(), "\"abc123\"".to_owned()),
            (
                "urls".to_owned(),
                "[\"https://example.com/v1.2.3/tool\"]".to_owned()
            ),
        ]
    );
}

#[test]
fn test_bzlmod_extension_usages_ignore_dev_dependency_when_requested() {
    let lines = r#"dev_ext = use_extension(
    "@dev_repo//:extensions.bzl",
    "dev",
    dev_dependency = True,
)
use_repo(dev_ext, "dev_repo")

prod_ext = use_extension("//:extensions.bzl", "prod")
use_repo(prod_ext, "prod_repo")
"#
    .lines()
    .map(str::to_owned)
    .collect::<Vec<_>>();

    let constants = bzlmod_module_constants_from_lines(&lines);
    let usages = bzlmod_extension_usages_from_lines(&lines, &constants, true);
    assert_eq!(usages.len(), 1);
    assert_eq!(usages[0].proxy_name, "prod_ext");
    assert_eq!(usages[0].imports[0].repo_name, "prod_repo");
}

#[test]
fn test_bzlmod_lockfile_extension_key() {
    let mut canonical_repo_names_by_cell = KeyMap::new();
    let rules_go_cell = bzlmod_cell_name("rules_go+");
    canonical_repo_names_by_cell.insert(rules_go_cell.clone(), "rules_go+".to_owned());

    assert_eq!(
        bzlmod_lockfile_extension_key(
            &BzlmodExtensionId {
                bzl_cell_name: "root".to_owned(),
                bzl_path: "repositories.bzl".to_owned(),
                extension_name: "async_profiler_repos".to_owned(),
            },
            &canonical_repo_names_by_cell,
        ).unwrap(),
        "//:repositories.bzl%async_profiler_repos"
    );
    assert_eq!(
        bzlmod_lockfile_extension_key(
            &BzlmodExtensionId {
                bzl_cell_name: rules_go_cell,
                bzl_path: "go/extensions.bzl".to_owned(),
                extension_name: "go_sdk".to_owned(),
            },
            &canonical_repo_names_by_cell,
        ).unwrap(),
        "@@rules_go+//go:extensions.bzl%go_sdk"
    );
}

#[test]
fn test_bzlmod_registered_toolchains_resolve_declaring_repo_mapping() {
    let mut cell_aliases_by_cell = KeyMap::new();
    let rules_go_cell = bzlmod_cell_name("rules_go+0.57.0");
    let go_toolchains_cell = bzlmod_cell_name("rules_go+0.57.0+go_sdk+go_toolchains");
    add_bzlmod_cell_alias(
        &mut cell_aliases_by_cell,
        &rules_go_cell,
        "go_toolchains",
        &go_toolchains_cell,
    );

    assert_eq!(
        qualify_bzlmod_registered_toolchain(
            "@go_toolchains//:all",
            &rules_go_cell,
            &cell_aliases_by_cell,
        ).unwrap(),
        format!("{go_toolchains_cell}//:all")
    );
    assert_eq!(
        qualify_bzlmod_registered_toolchain(
            "//:all",
            &rules_go_cell,
            &cell_aliases_by_cell,
        ).unwrap(),
        format!("{rules_go_cell}//:all")
    );

}

#[test]
fn test_bzlmod_registered_toolchains_include_root_module() {
    let root_module = RootBzlmodModule {
        name: "root".to_owned(),
        version: String::new(),
        repo_name: "root".to_owned(),
        canonical_repo_name: String::new(),
        lockfile_extension_generated_repos: KeyMap::new(),
        lockfile_extension_facts: KeySet::new(),
        constants: Vec::new(),
        extension_usages: Vec::new(),
        use_repo_rule_invocations: Vec::new(),
        registered_toolchains: vec![
            "@rust_toolchains//:all".to_owned(),
            "//tools:toolchain".to_owned(),
        ],
    };
    let mut cell_aliases_by_cell = KeyMap::new();
    add_bzlmod_cell_alias(
        &mut cell_aliases_by_cell,
        "root",
        "rust_toolchains",
        "bzlmod_rules_rust__rust_rust_toolchains",
    );

    assert_eq!(
        resolve_bzlmod_registered_toolchains(
            &root_module,
            &KeyMap::new(),
            &Vec::new(),
            &KeyMap::new(),
            &cell_aliases_by_cell,
        ).unwrap(),
        vec![
            "bzlmod_rules_rust__rust_rust_toolchains//:all",
            "root//tools:toolchain",
        ]
    );

}

#[test]
fn test_bzlmod_extension_usages_are_parsed_without_extension_name_special_cases() {
    let lines = r#"sdk = use_extension("//go:extensions.bzl", "go_sdk")
_GO_MOD = "//:go.mod"
SUPPORTED_PYTHON_VERSIONS = [
    "3.11",
    "3.12",
]
sdk.from_file(name = "go_default_sdk", go_mod = "//:go.mod")
[sdk.from_file(name = name, go_mod = "//:go.mod") for name in ("ignored",)]
use_repo(
    sdk,
    "go_toolchains",
    alias_name = "actual_repo",
    system_python = "python_{}".format(SUPPORTED_PYTHON_VERSIONS[-1].replace(".", "_")),
)
INJECTED_REPOS = {
    "non_identifier.repo": "actual_repo",
}
inject_repo(
    sdk,
    "com_github_buildbuddy_io_buildbuddy",
    googleapis_alias = "googleapis",
    **INJECTED_REPOS,
)
override_repo(sdk, go_toolchains = "actual_repo")

features = use_extension("@bazel_features//:extensions.bzl", "version_extension")
use_repo(features, "bazel_features_globals")

rules_kotlin_extensions = use_extension(
    "//src/main/starlark/core/repositories:bzlmod_setup.bzl",
    "rules_kotlin_extensions",
)
use_repo(
    rules_kotlin_extensions,
    "com_github_jetbrains_kotlin",
)
"#
    .lines()
    .map(str::to_owned)
    .collect::<Vec<_>>();
    assert_eq!(
        bzlmod_module_constants_from_lines(&lines),
        vec![
            ("_GO_MOD".to_owned(), "\"//:go.mod\"".to_owned()),
            (
                "SUPPORTED_PYTHON_VERSIONS".to_owned(),
                "[\n    \"3.11\",\n    \"3.12\",\n]".to_owned()
            ),
            (
                "INJECTED_REPOS".to_owned(),
                "{\n    \"non_identifier.repo\": \"actual_repo\",\n}".to_owned()
            )
        ]
    );
    let constants = bzlmod_module_constants_from_lines(&lines);
    let usages = bzlmod_extension_usages_from_lines(&lines, &constants, false);
    assert_eq!(usages.len(), 3);
    assert_eq!(usages[0].proxy_name, "sdk");
    assert_eq!(usages[0].extension_bzl_file, "//go:extensions.bzl");
    assert_eq!(usages[0].extension_name, "go_sdk");
    assert_eq!(usages[0].tags.len(), 1);
    assert_eq!(usages[0].tags[0].tag_name, "from_file");
    let mut kwargs = usages[0].tags[0].kwargs.clone();
    kwargs.sort();
    assert_eq!(
        kwargs,
        vec![
            ("go_mod".to_owned(), "\"//:go.mod\"".to_owned()),
            ("name".to_owned(), "\"go_default_sdk\"".to_owned()),
        ]
    );
    assert_eq!(usages[0].imports.len(), 3);
    assert_eq!(usages[0].imports[0].alias, "go_toolchains");
    assert_eq!(usages[0].imports[0].repo_name, "go_toolchains");
    assert_eq!(usages[0].imports[1].alias, "alias_name");
    assert_eq!(usages[0].imports[1].repo_name, "actual_repo");
    assert_eq!(usages[0].imports[2].alias, "system_python");
    assert_eq!(usages[0].imports[2].repo_name, "python_3_12");
    assert_eq!(usages[0].repo_overrides.len(), 4);
    assert_eq!(
        usages[0].repo_overrides[0].repo_name,
        "com_github_buildbuddy_io_buildbuddy"
    );
    assert_eq!(
        usages[0].repo_overrides[0].overriding_repo_name,
        "com_github_buildbuddy_io_buildbuddy"
    );
    assert!(!usages[0].repo_overrides[0].must_exist);
    assert_eq!(usages[0].repo_overrides[1].repo_name, "go_toolchains");
    assert_eq!(
        usages[0].repo_overrides[1].overriding_repo_name,
        "actual_repo"
    );
    assert!(usages[0].repo_overrides[1].must_exist);
    assert_eq!(usages[0].repo_overrides[2].repo_name, "googleapis_alias");
    assert_eq!(
        usages[0].repo_overrides[2].overriding_repo_name,
        "googleapis"
    );
    assert!(!usages[0].repo_overrides[2].must_exist);
    assert_eq!(usages[0].repo_overrides[3].repo_name, "non_identifier.repo");
    assert_eq!(
        usages[0].repo_overrides[3].overriding_repo_name,
        "actual_repo"
    );
    assert!(!usages[0].repo_overrides[3].must_exist);
    assert_eq!(
        bzlmod_extension_tag_repo_names(&usages[0]),
        vec!["go_default_sdk".to_owned()]
    );

    assert_eq!(usages[1].proxy_name, "features");
    assert_eq!(
        usages[1].extension_bzl_file,
        "@bazel_features//:extensions.bzl"
    );
    assert_eq!(usages[1].extension_name, "version_extension");
    assert_eq!(usages[1].imports.len(), 1);
    assert_eq!(usages[1].imports[0].alias, "bazel_features_globals");
    assert_eq!(usages[1].imports[0].repo_name, "bazel_features_globals");

    assert_eq!(usages[2].proxy_name, "rules_kotlin_extensions");
    assert_eq!(
        usages[2].extension_bzl_file,
        "//src/main/starlark/core/repositories:bzlmod_setup.bzl"
    );
    assert_eq!(usages[2].extension_name, "rules_kotlin_extensions");
    assert_eq!(usages[2].imports.len(), 1);
    assert_eq!(usages[2].imports[0].alias, "com_github_jetbrains_kotlin");
    assert_eq!(
        usages[2].imports[0].repo_name,
        "com_github_jetbrains_kotlin"
    );
}

#[test]
fn test_bzlmod_extension_tags_expand_split_tuple_list_comprehensions() {
    let lines = r#"maven = use_extension("@rules_jvm_external//:extensions.bzl", "maven")

[
    maven.artifact(
        artifact = artifact,
        group = group,
        version = version,
    )
    for group, artifact, version in [coord.split(":") for coord in [
        "com.google.guava:guava-testlib:33.2.1-jre",
        "com.google.truth:truth:1.4.2",
    ]]
]
"#
    .lines()
    .map(str::to_owned)
    .collect::<Vec<_>>();
    let constants = bzlmod_module_constants_from_lines(&lines);
    let usages = bzlmod_extension_usages_from_lines(&lines, &constants, false);
    assert_eq!(usages.len(), 1);
    assert_eq!(usages[0].tags.len(), 2);
    assert!(usages[0].tags.iter().any(|tag| {
        tag.kwargs
            .contains(&("group".to_owned(), "\"com.google.guava\"".to_owned()))
            && tag
                .kwargs
                .contains(&("artifact".to_owned(), "\"guava-testlib\"".to_owned()))
            && tag
                .kwargs
                .contains(&("version".to_owned(), "\"33.2.1-jre\"".to_owned()))
    }));
}

#[test]
fn tags_in_comprehensions_bind_the_parts_of_tuples() {
    let lines = r#"maven = use_extension("@rules_jvm_external//:extensions.bzl", "maven")

[
    maven.artifact(
        artifact = artifact,
        group = group,
        version = version,
    )
    for group, artifact, version in [coord.split(":") for coord in [
        "com.google.guava:guava-testlib:33.2.1-jre",
        "com.google.truth:truth:1.4.2",
    ]]
]
"#
    .lines()
    .map(str::to_owned)
    .collect::<Vec<_>>();
    let constants = bzlmod_module_constants_from_lines(&lines);
    let usages = bzlmod_extension_usages_from_lines(&lines, &constants, false);
    assert_eq!(usages.len(), 1);
    assert_eq!(usages[0].tags.len(), 2);
    let bindings = usages[0]
        .tags
        .iter()
        .map(|tag| tag.bindings.clone())
        .collect::<Vec<_>>();
    let bound = |group: &str, artifact: &str, version: &str| {
        vec![
            ("group".to_owned(), format!("\"{group}\"")),
            ("artifact".to_owned(), format!("\"{artifact}\"")),
            ("version".to_owned(), format!("\"{version}\"")),
        ]
    };
    assert_eq!(
        bindings,
        vec![
            bound("com.google.guava", "guava-testlib", "33.2.1-jre"),
            bound("com.google.truth", "truth", "1.4.2"),
        ]
    );
}

#[test]
fn tags_in_comprehensions_keep_what_is_no_part_of_a_tuple() {
    let lines = r#"ext = use_extension("//:extensions.bzl", "ext")

[ext.tag(a = x, b = y, c = x + y) for x in ["1"] for y in ["2"]]

[ext.tag(a = x, b = x + y, c = z) for x, y in [s.split("-") for s in ["1-2"]] for z in ["3"]]
"#
    .lines()
    .map(str::to_owned)
    .collect::<Vec<_>>();
    let usages = bzlmod_extension_usages_from_lines(&lines, &Vec::new(), false);
    let kwargs = |tag: usize| {
        usages[0].tags[tag]
            .kwargs
            .iter()
            .map(|(name, value)| (name.as_str(), value.as_str()))
            .collect::<Vec<_>>()
    };
    assert_eq!(usages[0].tags.len(), 2);
    assert_eq!(kwargs(0), vec![("a", "x"), ("b", "y"), ("c", "x + y")]);
    assert_eq!(kwargs(1), vec![("a", "\"1\""), ("b", "x + y"), ("c", "z")]);
}
