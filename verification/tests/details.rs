use bazel_compat::components::{BuckconfigComponent, GlobalExternalConfig};
use bazel_compat::config::{
    ConfigFileLocation, ConfigFileLocationWithLine, ConfigValue, Location, ResolvedValue,
};
use bazel_compat::expr::{bzl_bool_expression_value, bzl_string_sequence_expression_values};
use bazel_compat::external::{
    bazel_repository_user_agent, BAZEL_REPOSITORY_ACCEPT_ENCODING,
    BAZEL_REPOSITORY_ACCEPT_ENCODING_HEADER, BAZEL_REPOSITORY_USER_AGENT_HEADER,
};
use bazel_compat::external_data::{ExternalBuckconfigData, ExternalPathBuckconfigData};
use bazel_compat::listing_strategy::PackageListingStrategy;
use bazel_compat::module::{
    BazelDep, BzlmodRegistryValue, BzlmodSelectionResult, DiscoveredBcrModule,
};
use bazel_compat::ordered::KeyMap;
use bazel_compat::package_listing::{gather_package_listing, CellPath, DirEntry, KnownDir};
use bazel_compat::paths::ConfigPath;
use bazel_compat::registry_fetch::bzlmod_fetched_module;
use bazel_compat::repositories::repo_spec_file_hashes;
use bazel_compat::sections::LegacyBuckConfig;
use bazel_compat::select::select_bzlmod_modules;

fn file<A>(values: &[&'static str], path: &str) -> BuckconfigComponent<&'static str, A> {
    BuckconfigComponent::GlobalExternalConfigFile(GlobalExternalConfig {
        values: values.to_vec(),
        origin_path: path.to_owned(),
    })
}

#[test]
fn components_come_from_files_then_cells_then_arguments() {
    let data = ExternalBuckconfigData {
        external_path_configs: vec![ExternalPathBuckconfigData {
            parse_state: LegacyBuckConfig::from_sections(Vec::new()),
            origin_path: ConfigPath::Global("/etc/buckconfig".to_owned()),
        }],
        args: Vec::new(),
        bzlmod_module_aliases: None,
    };
    let parts = data.get_buckconfig_components(
        vec![vec!["a.b=1"]],
        vec![
            ("".to_owned(), Some(vec!["c.d=2"])),
            ("third/party".to_owned(), Some(vec!["e.f=3"])),
            ("empty".to_owned(), Some(Vec::new())),
            ("broken".to_owned(), None),
        ],
        vec!["x.y=4"],
    );
    let expected = vec![
        file(&["a.b=1"], "/etc/buckconfig"),
        file(&["c.d=2"], ".buckconfig.local"),
        file(&["e.f=3"], "third/party/.buckconfig.local"),
        BuckconfigComponent::Argument("x.y=4"),
    ];
    assert_eq!(format!("{parts:?}"), format!("{expected:?}"));
}

#[test]
fn raw_values_are_not_resolved() {
    let value = ConfigValue::new_raw_arg("x".to_owned());
    assert_eq!(value.raw_value, "x");
    assert!(matches!(value.resolved_value, ResolvedValue::Unknown));
    assert!(matches!(value.source, Location::CommandLineArgument));
    let value = ConfigValue::new_raw(
        ConfigFileLocationWithLine {
            source_file: Box::new(ConfigFileLocation {
                path: ".buckconfig".to_owned(),
                include_source: None,
            }),
            line: 3,
        },
        "y".to_owned(),
    );
    assert_eq!(value.raw_value, "y");
    assert!(matches!(value.source, Location::File(at) if at.line == 3));
}

#[test]
fn repositories_are_fetched_under_a_name() {
    assert_eq!(bazel_repository_user_agent(), "Bazel/release 9.1.0");
    assert_eq!(BAZEL_REPOSITORY_USER_AGENT_HEADER, "User-Agent");
    assert_eq!(BAZEL_REPOSITORY_ACCEPT_ENCODING_HEADER, "Accept-Encoding");
    assert_eq!(BAZEL_REPOSITORY_ACCEPT_ENCODING, "gzip");
}

#[test]
fn registries_have_hashes_of_sources() {
    let mut registry = BzlmodRegistryValue {
        url: "https://r".to_owned(),
        registry_file_hashes: KeyMap::new(),
        selected_yanked_versions: KeyMap::new(),
    };
    let url = "https://r/modules/a/1.0/source.json".to_owned();
    assert!(repo_spec_file_hashes(&registry, "a", "1.0").entries.is_empty());
    registry
        .registry_file_hashes
        .insert(url.clone(), Some("h".to_owned()));
    assert_eq!(
        repo_spec_file_hashes(&registry, "a", "1.0").entries,
        vec![(url, Some("h".to_owned()))]
    );
    assert!(repo_spec_file_hashes(&registry, "a", "2.0").entries.is_empty());
}

#[test]
fn conditions_compare_strings() {
    let constants = vec![("X".to_owned(), "\"a\"".to_owned())];
    assert_eq!(bzl_bool_expression_value("(True)", &constants), Some(true));
    assert_eq!(bzl_bool_expression_value("False", &constants), Some(false));
    assert_eq!(bzl_bool_expression_value("X == \"a\"", &constants), Some(true));
    assert_eq!(bzl_bool_expression_value("X != \"a\"", &constants), Some(false));
    assert_eq!(bzl_bool_expression_value("Y", &constants), None);
}

#[test]
fn lists_of_strings_are_quoted() {
    assert_eq!(
        bzl_string_sequence_expression_values("[\"a\", \"b\"]", &Vec::new()),
        Some(vec!["\"a\"".to_owned(), "\"b\"".to_owned()])
    );
    assert_eq!(
        bzl_string_sequence_expression_values("unknown(1)", &Vec::new()),
        None
    );
}

fn dep(name: &str, version: &str) -> BazelDep {
    BazelDep {
        name: name.to_owned(),
        version: version.to_owned(),
        apparent_name: Some(name.to_owned()),
    }
}

fn key(name: &str, version: &str) -> (String, String) {
    (name.to_owned(), version.to_owned())
}

fn module(name: &str, version: &str, text: &str) -> DiscoveredBcrModule {
    bzlmod_fetched_module(dep(name, version), None, text).unwrap()
}

fn diamond() -> BzlmodSelectionResult {
    let mut discovered = KeyMap::new();
    for (name, version, text) in [
        ("a", "1.0", "bazel_dep(name = \"c\", version = \"1.0\")\n"),
        ("b", "1.0", "bazel_dep(name = \"c\", version = \"1.1\")\n"),
        ("c", "1.0", "bazel_dep(name = \"old\", version = \"1.0\")\n"),
        ("c", "1.1", ""),
        ("old", "1.0", ""),
    ] {
        discovered.insert(key(name, version), module(name, version, text));
    }
    let roots = vec![dep("a", "1.0"), dep("b", "1.0")];
    select_bzlmod_modules(&roots, module("bazel_tools", "", ""), &discovered).unwrap()
}

#[test]
fn selection_holds_what_is_reached_in_its_highest_version() {
    let selection = diamond();
    assert_eq!(
        selection.selected_keys.items,
        vec![
            key("a", "1.0"),
            key("b", "1.0"),
            key("bazel_tools", ""),
            key("c", "1.1")
        ]
    );
    assert_eq!(
        selection.selected_keys_in_bfs_order,
        vec![
            key("a", "1.0"),
            key("b", "1.0"),
            key("bazel_tools", ""),
            key("c", "1.1")
        ]
    );
    let mut names: Vec<String> = selection
        .canonical_repo_names_by_key
        .entries
        .iter()
        .map(|(_, name)| name.clone())
        .collect();
    names.dedup();
    assert_eq!(names, vec!["a+", "b+", "bazel_tools", "c+"]);
}

#[test]
fn dependencies_come_before_dependents() {
    assert_eq!(
        diamond().selected_keys_in_dependency_order,
        vec![
            key("c", "1.1"),
            key("a", "1.0"),
            key("b", "1.0"),
            key("bazel_tools", "")
        ]
    );
}

fn dir(entries: &[(&str, bool)]) -> KnownDir {
    KnownDir::Entries(
        entries
            .iter()
            .map(|(name, is_dir)| DirEntry {
                file_name: name.to_string(),
                is_dir: *is_dir,
            })
            .collect(),
    )
}

#[test]
fn files_of_packages_below_are_not_listed() {
    let mut known = KeyMap::new();
    known.insert(
        "".to_owned(),
        dir(&[("BUCK", false), ("lib", true), ("sub", true), ("sub.txt", false)]),
    );
    known.insert("lib".to_owned(), dir(&[("a.c", false)]));
    known.insert("sub".to_owned(), dir(&[("BUCK", false), ("b.c", false)]));
    let package = CellPath {
        cell: "root".to_owned(),
        path: "p".to_owned(),
    };
    let listing = gather_package_listing(
        &package,
        &vec!["BUCK".to_owned()],
        &PackageListingStrategy::Recursive,
        &known,
    )
    .ok()
    .unwrap();
    assert_eq!(listing.files(), vec!["BUCK", "lib/a.c", "sub.txt"]);
    assert_eq!(listing.subpackages(), vec!["sub"]);
    assert!(!listing.contains_file("sub/b.c"));
}
