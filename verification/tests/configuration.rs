use bazel_compat::cell_config::{
    config_for_cwd, get_bazel_cell_alias_resolver_from_config, get_cell_aliases_from_config,
    get_cell_definitions, get_external_cells, needs_project_detection, register_configured_cell,
    root_config_with_defaults, should_apply_bazel_compat_defaults, single_cell_config,
    uses_bazel_aliases, Detection, ProjectCells,
};
use bazel_compat::compat::{configured_root_cell, empty_bazelrc_options};
use bazel_compat::config::{
    parse_config_section_and_key, ConfigFileLocation, ConfigFileLocationWithLine, ConfigValue,
    LegacyBuckConfigLocation, Location, ResolvedValue,
};
use bazel_compat::config_paths::{
    get_external_buckconfig_paths, get_project_buckconfig_paths, ConfigPathStop, ConfigSource,
    ExternalConfigSource,
};
use bazel_compat::external::{
    bzlmod_canonical_repo_name_for_cell, external_cell_origin_for_cell, BzlmodGeneratedCellGenerator,
    BzlmodHostPlatformSetup, ExternalCellOrigin, ExternalCellRegistry, GitObjectFormat,
};
use bazel_compat::external_data::{
    ExternalBuckconfigData, ExternalPathBuckconfigData, ResolvedConfigFlag,
    ResolvedLegacyConfigArg,
};
use bazel_compat::filter::BuckconfigKeyRef;
use bazel_compat::module::{BzlmodOverlayConfig, BzlmodPatchConfig};
use bazel_compat::module_aliases::BazelModuleCellAliases;
use bazel_compat::ordered::KeyMap;
use bazel_compat::origins::{
    external_cell_json_texts, external_cell_origin_from_bazel_module, parse_external_cell_origin,
    parse_number, OriginJson,
};
use bazel_compat::paths::ConfigPath;
use bazel_compat::resolved::{
    BazelCompatCellAlias, BazelCompatExternalModule, BazelCompatGeneratedModule,
    BazelCompatRegistryModule,
};
use bazel_compat::project_cells::{
    cell_aliases_for_cwd, BuckConfigBasedCells, CwdAliases, ExternalCellAnswer,
};
use bazel_compat::sections::{LegacyBuckConfig, LegacyBuckConfigSection};

fn value(text: &str) -> ConfigValue {
    ConfigValue {
        raw_value: text.to_owned(),
        resolved_value: ResolvedValue::Literal,
        source: Location::CommandLineArgument,
    }
}

fn config(sections: &[(&str, &[(&str, &str)])]) -> LegacyBuckConfig {
    LegacyBuckConfig::from_sections(
        sections
            .iter()
            .map(|(name, entries)| {
                (
                    name.to_string(),
                    LegacyBuckConfigSection::from_entries(
                        entries
                            .iter()
                            .map(|(key, text)| (key.to_string(), value(text)))
                            .collect(),
                    ),
                )
            })
            .collect(),
    )
}

fn no_json() -> OriginJson {
    OriginJson {
        patches: None,
        overlays: None,
        generator: None,
    }
}

fn alias(alias: &str, cell_name: &str) -> BazelCompatCellAlias {
    BazelCompatCellAlias {
        alias: alias.to_owned(),
        cell_name: cell_name.to_owned(),
    }
}

fn registry_module() -> BazelCompatExternalModule {
    BazelCompatExternalModule::Registry(BazelCompatRegistryModule {
        cell_name: "bzlmod_rules_go_".to_owned(),
        aliases: Vec::new(),
        module_name: "rules_go".to_owned(),
        version: "0.57.0".to_owned(),
        canonical_repo_name: "rules_go+".to_owned(),
        local_path: None,
        url: "https://a".to_owned(),
        urls_json: "[\"https://a\",\"https:\\/\\/b\"]".to_owned(),
        integrity: "sha256-x".to_owned(),
        strip_prefix: Some("p".to_owned()),
        archive_type: None,
        patches_json: "[{}]".to_owned(),
        overlays_json: "[]".to_owned(),
        patch_strip: 3,
    })
}

fn registry_json() -> OriginJson {
    OriginJson {
        patches: Some(vec![
            BzlmodPatchConfig {
                url: "u".to_owned(),
                integrity: "i".to_owned(),
                path: None,
                content_sha256: None,
                patch_strip: None,
            },
            BzlmodPatchConfig {
                url: String::new(),
                integrity: String::new(),
                path: Some("p".to_owned()),
                content_sha256: Some("c".to_owned()),
                patch_strip: Some(1),
            },
        ]),
        overlays: Some(vec![BzlmodOverlayConfig {
            path: "o".to_owned(),
            url: "v".to_owned(),
            integrity: "j".to_owned(),
        }]),
        generator: None,
    }
}

#[test]
fn test_section_and_key() {
    // Valid Formats

    let normal_section_and_key = parse_config_section_and_key("apple.key", None).unwrap();

    assert_eq!("apple", normal_section_and_key.section);
    assert_eq!("key", normal_section_and_key.key);

    // Whitespace

    let section_leading_whitespace = parse_config_section_and_key("  apple.key", None).unwrap();
    assert_eq!("apple", section_leading_whitespace.section);
    assert_eq!("key", section_leading_whitespace.key);

    let pair_with_whitespace_in_key = parse_config_section_and_key("apple. key", None);
    assert!(pair_with_whitespace_in_key.is_err());

    // Invalid Formats

    let pair_without_dot = parse_config_section_and_key("applekey", None);
    assert!(pair_without_dot.is_err());
}

#[test]
fn sections_are_looked_up_by_name_and_listed_in_order() {
    let config = config(&[("z", &[("b", "2"), ("a", "1"), ("b", "3")]), ("m", &[])]);
    assert_eq!(config.get("z", "a"), Some("1"));
    assert_eq!(config.get("z", "b"), Some("3"));
    assert_eq!(config.get("z", "c"), None);
    assert_eq!(config.get("y", "a"), None);
    let names: Vec<&String> = config.sections().into_iter().map(|(name, _)| name).collect();
    assert_eq!(names, vec!["m", "z"]);
    let keys: Vec<&String> = config
        .get_section("z")
        .unwrap()
        .entries()
        .into_iter()
        .map(|(key, _)| key)
        .collect();
    assert_eq!(keys, vec!["a", "b"]);
    assert!(LegacyBuckConfig::empty().sections().is_empty());
}

#[test]
fn values_know_where_they_were_set() {
    let included = ConfigValue {
        raw_value: "raw".to_owned(),
        resolved_value: ResolvedValue::Resolved("resolved".to_owned()),
        source: Location::File(ConfigFileLocationWithLine {
            source_file: Box::new(ConfigFileLocation {
                path: "inner".to_owned(),
                include_source: Some(Box::new(Location::File(ConfigFileLocationWithLine {
                    source_file: Box::new(ConfigFileLocation {
                        path: "outer".to_owned(),
                        include_source: None,
                    }),
                    line: 7,
                }))),
            }),
            line: 2,
        }),
    };
    let section = LegacyBuckConfigSection::from_entries(vec![("k".to_owned(), included)]);
    let value = section.get("k").unwrap();
    assert_eq!(value.as_str(), "resolved");
    assert_eq!(value.raw_value(), "raw");
    assert_eq!(value.location(), LegacyBuckConfigLocation::File("inner", 2));
    assert_eq!(value.location().display(), "at inner:2");
    assert_eq!(
        value.location_stack(),
        vec![
            LegacyBuckConfigLocation::File("inner", 2),
            LegacyBuckConfigLocation::File("outer", 7),
        ]
    );
    assert_eq!(
        LegacyBuckConfigLocation::CommandLineArgument.display(),
        "on the command line"
    );
}

#[test]
fn test_module_bazel_enables_bazel_compat_defaults_with_buckconfig() {
    let root_config = config(&[
        ("cells", &[("gh_facebook_buck2", "."), ("prelude", "prelude")]),
        ("cell_aliases", &[("root", "gh_facebook_buck2")]),
    ]);
    assert_eq!(
        should_apply_bazel_compat_defaults(&vec![true]),
        Detection::Decided(true)
    );
    let root_config = single_cell_config(
        root_config,
        "gh_facebook_buck2",
        true,
        &empty_bazelrc_options(),
    );
    assert_eq!(root_config.get("cells", "root"), None);
    assert_eq!(root_config.get("cell_aliases", "root"), Some("gh_facebook_buck2"));
    assert_eq!(root_config.get("bazel", "compatibility"), Some("true"));
    assert_eq!(root_config.get("buildfile", "name_v2"), Some("BUILD.bazel,BUILD"));
    assert_eq!(
        root_config.get("buildfile", "includes"),
        Some("prelude//bazel/prelude.bzl")
    );
    assert_eq!(
        root_config.get("parser", "target_platform_detector_spec"),
        Some("target:gh_facebook_buck2//...->platforms//host:host")
    );
}

#[test]
fn defaults_fill_in_what_is_not_configured() {
    let mut options = empty_bazelrc_options();
    options.copt = vec!["-a".to_owned(), "-b".to_owned()];
    options.command_line_build_settings = vec!["bool\t//x\ttrue".to_owned()];
    let mut registry = ExternalCellRegistry::new();
    let written = config(&[("buck2", &[("file_watcher", "watchman")])]).with_bazel_compat_defaults(
        &mut registry,
        &vec![alias("config", "mine"), alias("other", "root")],
        &vec![registry_module()],
        &vec!["//a:all".to_owned(), "//b:all".to_owned()],
        &options,
    );
    assert_eq!(written.get("buck2", "file_watcher"), Some("watchman"));
    assert_eq!(written.get("buck2", "share_action_paths"), Some("true"));
    assert_eq!(written.get("cells", "root"), Some("."));
    assert_eq!(
        written.get("cells", "bzlmod_rules_go_"),
        Some("buck-out/v2/external_cells/bzlmod/rules_go+")
    );
    assert_eq!(written.get("external_cells", "bzlmod_rules_go_"), Some("bzlmod"));
    assert_eq!(written.get("cell_aliases", "config"), Some("mine"));
    assert_eq!(written.get("cell_aliases", "ovr_config"), Some("prelude"));
    assert_eq!(written.get("cell_aliases", "other"), Some("root"));
    assert_eq!(
        written.get("parser", "target_platform_detector_spec"),
        Some("target:root//...->platforms//host:host")
    );
    assert_eq!(written.get("bazel", "registered_toolchains"), Some("//a:all,//b:all"));
    assert_eq!(written.get("bazel", "copt"), Some("-a\n-b"));
    assert_eq!(written.get("bazel", "cxxopt"), None);
    assert_eq!(
        written.get("bazel", "command_line_build_settings"),
        Some("bool\t//x\ttrue")
    );
    assert_eq!(written.get("external_cell_bzlmod_rules_go_", "patch_strip"), Some("3"));
    assert_eq!(written.get("external_cell_bzlmod_rules_go_", "strip_prefix"), Some("p"));
    assert_eq!(written.get("external_cell_bzlmod_rules_go_", "local_path"), None);
    assert_eq!(
        bzlmod_canonical_repo_name_for_cell(&registry, "bzlmod_rules_go_").as_deref(),
        Some("rules_go+")
    );
}

#[test]
fn startup_defaults_need_no_modules() {
    let written = LegacyBuckConfig::empty().with_bazel_compat_startup_defaults();
    assert_eq!(written.get("cells", "bazel_tools"), Some("bazel_tools"));
    assert_eq!(written.get("bazel", "registered_toolchains"), None);
    assert_eq!(written.sections().len(), 7);
}

#[test]
fn the_root_cell_is_found_by_alias_or_by_path() {
    assert_eq!(configured_root_cell(&LegacyBuckConfig::empty()), None);
    assert_eq!(
        configured_root_cell(&config(&[("cells", &[("a", "x"), ("b", ".")])])).as_deref(),
        Some("b")
    );
    assert_eq!(
        configured_root_cell(&config(&[
            ("repositories", &[("a", "x"), ("b", ".")]),
            ("repository_aliases", &[("root", "a")]),
        ]))
        .as_deref(),
        Some("a")
    );
    assert_eq!(
        configured_root_cell(&config(&[
            ("cells", &[("a", "x")]),
            ("cell_aliases", &[("root", "nowhere")]),
        ])),
        None
    );
}

#[test]
fn what_is_written_for_a_module_reads_back() {
    let module = registry_module();
    let json = registry_json();
    let mut registry = ExternalCellRegistry::new();
    let written = LegacyBuckConfig::empty().with_bazel_compat_defaults(
        &mut registry,
        &Vec::new(),
        &vec![registry_module()],
        &Vec::new(),
        &empty_bazelrc_options(),
    );
    assert_eq!(
        external_cell_json_texts("bzlmod_rules_go_", &written),
        (Some("[{}]".to_owned()), "[]".to_owned(), None)
    );
    let read = parse_external_cell_origin("bzlmod_rules_go_", "bzlmod", &written, &json).unwrap();
    let own = external_cell_origin_from_bazel_module(&module, &json).unwrap();
    assert_eq!(read, own);
    let setup = match read {
        ExternalCellOrigin::Bzlmod(setup) => setup,
        other => panic!("unexpected origin {:?}", other),
    };
    assert_eq!(setup.urls, vec!["https://a", "https://b"]);
    assert_eq!(setup.patches[0].patch_strip, 3);
    assert_eq!(setup.patches[1].patch_strip, 1);
    assert_eq!(setup.overlays[0].path, "o");
    assert_eq!(setup.patch_strip, 3);
}

#[test]
fn generated_cells_read_back_too() {
    let module = BazelCompatExternalModule::Generated(BazelCompatGeneratedModule {
        cell_name: "bzlmod_host".to_owned(),
        aliases: Vec::new(),
        canonical_repo_name: "host".to_owned(),
        generator_json: "{}".to_owned(),
    });
    let json = OriginJson {
        patches: None,
        overlays: None,
        generator: Some(BzlmodGeneratedCellGenerator::HostPlatform(
            BzlmodHostPlatformSetup {},
        )),
    };
    let own = external_cell_origin_from_bazel_module(&module, &json).unwrap();
    let written = LegacyBuckConfig::empty().with_bazel_compat_defaults(
        &mut ExternalCellRegistry::new(),
        &Vec::new(),
        &vec![module],
        &Vec::new(),
        &empty_bazelrc_options(),
    );
    let read =
        parse_external_cell_origin("bzlmod_host", "bzlmod_generated", &written, &json).unwrap();
    assert_eq!(read, own);
    assert_eq!(
        parse_external_cell_origin("bzlmod_host", "bzlmod_generated", &written, &no_json())
            .err()
            .unwrap()
            .message,
        "Invalid generated bzlmod repo configuration"
    );
}

#[test]
fn test_git_external_cell() {
    let config = config(&[(
        "external_cell_libfoo",
        &[
            ("git_origin", "https://github.com/jeff/libfoo.git"),
            ("commit_hash", "aaaaaaaabbbbbbbbccccccccddddddddeeeeeeee"),
        ],
    )]);
    let origin = parse_external_cell_origin("libfoo", "git", &config, &no_json()).unwrap();
    match origin {
        ExternalCellOrigin::Git(setup) => {
            assert_eq!(setup.git_origin, "https://github.com/jeff/libfoo.git");
            assert_eq!(setup.commit, "aaaaaaaabbbbbbbbccccccccddddddddeeeeeeee");
            assert_eq!(setup.object_format, None);
        }
        other => panic!("unexpected origin {:?}", other),
    }
}

#[test]
fn test_git_external_cell_invalid_sha1() {
    let config = config(&[(
        "external_cell_libfoo",
        &[
            ("git_origin", "https://github.com/jeff/libfoo.git"),
            ("commit_hash", "abcde"),
        ],
    )]);
    let e = parse_external_cell_origin("libfoo", "git", &config, &no_json()).unwrap_err();
    let e = format!("{e:?}");
    assert!(e.contains("not a valid SHA1 digest"), "error: {e}");
}

#[test]
fn git_cells_with_an_object_format_have_to_fit_it() {
    let hash = "0123456789abcdef0123456789abcdef0123456789abcdef0123456789abcdef";
    let with = |format: &str, commit: &str| {
        let config = config(&[(
            "external_cell_c",
            &[
                ("git_origin", "o"),
                ("commit_hash", commit),
                ("object_format", format),
            ],
        )]);
        parse_external_cell_origin("c", "git", &config, &no_json())
    };
    match with("sha256", hash).unwrap() {
        ExternalCellOrigin::Git(setup) => {
            assert_eq!(setup.object_format, Some(GitObjectFormat::Sha256))
        }
        other => panic!("unexpected origin {:?}", other),
    }
    assert!(with("sha1", hash).is_err());
    assert!(with("md5", hash).is_err());
}

#[test]
fn external_cells_say_what_they_miss() {
    let message = |value: &str, config: &LegacyBuckConfig, json: &OriginJson| {
        parse_external_cell_origin("c", value, config, json)
            .err()
            .unwrap()
            .message
    };
    let empty = LegacyBuckConfig::empty();
    assert_eq!(
        message("nonsense", &empty, &no_json()),
        "Unknown external cell origin `nonsense`"
    );
    assert_eq!(
        message("git", &empty, &no_json()),
        "Missing buckconfig `external_cell_c.commit_hash` for external cell configuration"
    );
    assert_eq!(
        message("bzlmod", &empty, &registry_json()),
        "Missing buckconfig `external_cell_c.patches` for external cell configuration"
    );
    let section: &[(&str, &str)] = &[("patches", "x"), ("patch_strip", "1x"), ("url", "u")];
    let config_with = config(&[("external_cell_c", section)]);
    assert_eq!(
        message("bzlmod", &config_with, &no_json()),
        "Invalid bzlmod patch configuration"
    );
    let mut json = registry_json();
    json.overlays = None;
    assert_eq!(
        message("bzlmod", &config_with, &json),
        "Invalid bzlmod overlay configuration"
    );
    assert_eq!(
        message("bzlmod", &config_with, &registry_json()),
        "invalid digit found in string"
    );
    let bad_urls = config(&[(
        "external_cell_c",
        &[("patches", "x"), ("patch_strip", "1"), ("url", "u"), ("urls", "[1]")],
    )]);
    assert_eq!(
        message("bzlmod", &bad_urls, &registry_json()),
        "Invalid bzlmod URL configuration"
    );
    assert_eq!(
        parse_external_cell_origin("c", "bundled", &empty, &no_json()).unwrap(),
        ExternalCellOrigin::Bundled("c".to_owned())
    );
}

#[test]
fn numbers_are_decimal_digits() {
    assert_eq!(parse_number("0").unwrap(), 0);
    assert_eq!(parse_number("+42").unwrap(), 42);
    assert_eq!(parse_number("4294967295").unwrap(), u32::MAX);
    assert_eq!(
        parse_number("4294967296").err().unwrap().message,
        "number too large to fit in target type"
    );
    assert_eq!(
        parse_number("").err().unwrap().message,
        "cannot parse integer from empty string"
    );
    for text in ["+", "-1", "1 ", "x"] {
        assert_eq!(
            parse_number(text).err().unwrap().message,
            "invalid digit found in string"
        );
    }
}

#[test]
fn test_bazel_cell_alias_resolver_preserves_magic_bazel_tools() {
    let config = config(&[
        (
            "cells",
            &[
                ("root", "."),
                ("prelude", "prelude"),
                ("bazel_tools", "bazel_tools"),
                (
                    "bzlmod_wrong",
                    "buck-out/v2/external_cells/bzlmod/wrong+",
                ),
            ],
        ),
        ("cell_aliases", &[("bazel_tools", "bzlmod_wrong")]),
    ]);
    let cells = ProjectCells {
        root_cell: "root".to_owned(),
        cells: KeyMap {
            entries: get_cell_definitions(&config, true, false).unwrap(),
        },
    };
    let aliases = get_bazel_cell_alias_resolver_from_config(
        &ExternalCellRegistry::new(),
        "root",
        &cells,
        &config,
    )
    .unwrap();

    assert_eq!(
        aliases.get(&"bazel_tools".to_owned()).map(String::as_str),
        Some("bazel_tools")
    );
}

#[test]
fn test_bazel_cell_alias_resolver_uses_actual_root_cell() {
    let config = config(&[
        (
            "cells",
            &[("gh_facebook_buck2", "."), ("prelude", "prelude")],
        ),
        ("cell_aliases", &[("root", "gh_facebook_buck2")]),
    ]);
    let cells = ProjectCells {
        root_cell: "gh_facebook_buck2".to_owned(),
        cells: KeyMap {
            entries: get_cell_definitions(&config, true, false).unwrap(),
        },
    };
    let aliases = get_bazel_cell_alias_resolver_from_config(
        &ExternalCellRegistry::new(),
        "gh_facebook_buck2",
        &cells,
        &config,
    )
    .unwrap();

    assert_eq!(
        aliases.get(&"root".to_owned()).map(String::as_str),
        Some("gh_facebook_buck2")
    );
    assert!(aliases.get(&"bazel_tools".to_owned()).is_none());
}

#[test]
fn aliases_stand_for_repositories_or_known_cells() {
    let cells = ProjectCells {
        root_cell: "root".to_owned(),
        cells: KeyMap {
            entries: vec![("root".to_owned(), "".to_owned())],
        },
    };
    let registry = ExternalCellRegistry::new();
    let aliases = |config: &LegacyBuckConfig| {
        get_bazel_cell_alias_resolver_from_config(&registry, "root", &cells, config)
    };
    let unknown = config(&[("cell_aliases", &[("a", "nowhere")])]);
    assert_eq!(
        aliases(&unknown).err().unwrap().message,
        "unknown cell name: `nowhere`"
    );
    let repository = config(&[("cell_aliases", &[("a", "bzlmod_b")])]);
    assert_eq!(
        aliases(&repository).unwrap().get(&"a".to_owned()).unwrap(),
        "bzlmod_b"
    );
    let empty = config(&[("cell_aliases", &[("a", "")])]);
    assert!(aliases(&empty).is_err());
    assert!(get_cell_aliases_from_config(&empty).is_err());
    assert_eq!(
        get_cell_aliases_from_config(&repository).unwrap(),
        vec![("a".to_owned(), "bzlmod_b".to_owned())]
    );
}

#[test]
fn registered_aliases_count_for_repositories() {
    let mut registry = ExternalCellRegistry::new();
    bazel_compat::external::register_bzlmod_cell_aliases(
        &mut registry,
        "bzlmod_a",
        vec![
            ("x".to_owned(), "bzlmod_x".to_owned()),
            ("bazel_tools".to_owned(), "bzlmod_wrong".to_owned()),
        ],
    );
    let cells = ProjectCells {
        root_cell: "root".to_owned(),
        cells: KeyMap::new(),
    };
    let empty = LegacyBuckConfig::empty();
    let aliases =
        get_bazel_cell_alias_resolver_from_config(&registry, "bzlmod_a", &cells, &empty).unwrap();
    assert_eq!(
        aliases.entries,
        vec![("x".to_owned(), "bzlmod_x".to_owned())]
    );
    let none =
        get_bazel_cell_alias_resolver_from_config(&registry, "root", &cells, &empty).unwrap();
    assert!(none.entries.is_empty());
}

#[test]
fn cells_have_paths_from_the_root() {
    let found = get_cell_definitions(
        &config(&[("cells", &[("root", "."), ("other", "other/"), ("x", "a/../b")])]),
        true,
        false,
    )
    .unwrap();
    assert_eq!(
        found,
        vec![
            ("other".to_owned(), "other".to_owned()),
            ("root".to_owned(), "".to_owned()),
            ("x".to_owned(), "b".to_owned()),
        ]
    );
    assert_eq!(
        get_cell_definitions(&config(&[("cells", &[("x", "..")])]), true, false)
            .err()
            .unwrap()
            .message,
        "expected alias path to be a relative path, but found `..` for `x`"
    );
    let empty = LegacyBuckConfig::empty();
    assert_eq!(
        get_cell_definitions(&empty, false, true).unwrap(),
        vec![("root".to_owned(), "".to_owned())]
    );
    assert!(get_cell_definitions(&empty, true, true).unwrap().is_empty());
}

#[test]
fn disabled_external_cells_are_left_out() {
    let config = config(&[("external_cells", &[("a", "bundled"), ("b", "disabled")])]);
    assert_eq!(
        get_external_cells(&config),
        vec![("a".to_owned(), "bundled".to_owned())]
    );
    let mut registry = ExternalCellRegistry::new();
    register_configured_cell(&mut registry, "a", "bundled", &config, &no_json()).unwrap();
    assert_eq!(
        external_cell_origin_for_cell(&registry, "a"),
        Some(ExternalCellOrigin::Bundled("a".to_owned()))
    );
    assert!(register_configured_cell(&mut registry, "b", "x", &config, &no_json()).is_err());
    assert_eq!(external_cell_origin_for_cell(&registry, "b"), None);
}

#[test]
fn projects_are_detected_by_their_files() {
    let decide = |found: &[bool]| should_apply_bazel_compat_defaults(&found.to_vec());
    assert_eq!(decide(&[]), Detection::Look("MODULE.bazel"));
    assert_eq!(decide(&[false]), Detection::Look(".buckconfig"));
    assert_eq!(decide(&[false, true]), Detection::Decided(false));
    assert_eq!(decide(&[false, false]), Detection::Look("WORKSPACE.bazel"));
    assert_eq!(decide(&[false, false, true]), Detection::Decided(true));
    assert_eq!(decide(&[false, false, false]), Detection::Look("WORKSPACE"));
    assert_eq!(
        decide(&[false, false, false, true]),
        Detection::Decided(true)
    );
    assert_eq!(
        decide(&[false, false, false, false]),
        Detection::Decided(false)
    );
}

#[test]
fn defaults_apply_where_they_are_asked_for() {
    let options = empty_bazelrc_options();
    let has = |config: LegacyBuckConfig| config.get("bazel", "compatibility").is_some();
    let empty = LegacyBuckConfig::empty;
    assert!(!has(config_for_cwd(empty(), "root", false, true, &options)));
    assert!(has(config_for_cwd(empty(), "root", true, true, &options)));
    assert!(!has(config_for_cwd(empty(), "root", true, false, &options)));
    assert!(has(config_for_cwd(empty(), "bazel_tools", true, false, &options)));
    let mut registry = ExternalCellRegistry::new();
    assert!(has(root_config_with_defaults(empty(), &mut registry, true, true, &options)));
    assert!(!has(root_config_with_defaults(empty(), &mut registry, true, false, &options)));
    assert!(has(single_cell_config(empty(), "bzlmod_x", false, &options)));
    assert!(!has(single_cell_config(empty(), "other", false, &options)));
    assert!(needs_project_detection("root", true));
    assert!(!needs_project_detection("bzlmod_x", true));
    assert!(uses_bazel_aliases("bazel_tools", true));
    assert!(!uses_bazel_aliases("root", true));
}

#[test]
fn filters_keep_what_they_are_asked_to() {
    let config = config(&[("a", &[("x", "1"), ("y", "2")]), ("b", &[("x", "3")])]);
    let kept = config.filter_values(|key: &BuckconfigKeyRef<'_>| key.property == "y");
    assert_eq!(kept.get("a", "x"), None);
    assert_eq!(kept.get("a", "y"), Some("2"));
    assert!(kept.get_section("b").is_none());
}

fn data(aliases: Option<BazelModuleCellAliases>) -> ExternalBuckconfigData {
    ExternalBuckconfigData {
        external_path_configs: vec![ExternalPathBuckconfigData {
            parse_state: config(&[("a", &[("x", "1"), ("y", "2")])]),
            origin_path: ConfigPath::Global("/etc/buckconfig".to_owned()),
        }],
        args: vec![
            ResolvedLegacyConfigArg::Flag(ResolvedConfigFlag {
                section: "a".to_owned(),
                key: "x".to_owned(),
                value: Some("3".to_owned()),
                cell: None,
            }),
            ResolvedLegacyConfigArg::Flag(ResolvedConfigFlag {
                section: "a".to_owned(),
                key: "x".to_owned(),
                value: None,
                cell: Some("c".to_owned()),
            }),
            ResolvedLegacyConfigArg::ProjectFile("f".to_owned()),
        ],
        bzlmod_module_aliases: aliases,
    }
}

fn module_aliases(modules: Vec<BazelCompatExternalModule>) -> BazelModuleCellAliases {
    BazelModuleCellAliases {
        root_aliases: vec![alias("b", "root"), alias("a", "x"), alias("b", "root")],
        cell_aliases: KeyMap {
            entries: vec![("c".to_owned(), vec![alias("z", "root"), alias("y", "w")])],
        },
        external_modules: modules,
        registered_toolchains: vec!["t2".to_owned(), "t1".to_owned(), "t2".to_owned()],
    }
}

#[test]
fn external_data_is_compared_without_modules() {
    assert!(data(None).dice_config_equal(&data(None)));
    assert!(!data(None).dice_config_equal(&ExternalBuckconfigData::testing_default()));
    let with = data(Some(module_aliases(Vec::new())));
    let other = data(Some(module_aliases(vec![registry_module()])));
    assert!(with.dice_config_equal(&other));
    assert!(!with.dice_config_equal(&data(None)));
}

#[test]
fn external_data_keeps_settings_for_cells_and_files() {
    let kept = data(None).filter_values(|key: &BuckconfigKeyRef<'_>| key.property != "x");
    assert_eq!(kept.args.len(), 2);
    assert_eq!(kept.external_path_configs[0].parse_state.get("a", "x"), None);
    assert_eq!(
        kept.external_path_configs[0].parse_state.get("a", "y"),
        Some("2")
    );
    assert_eq!(
        kept.external_path_configs[0].origin_path.display(),
        "/etc/buckconfig"
    );
}

#[test]
fn module_aliases_are_put_in_order() {
    let mut first = registry_module();
    if let BazelCompatExternalModule::Registry(module) = &mut first {
        module.cell_name = "a".to_owned();
    }
    let mut aliases = module_aliases(vec![registry_module(), first, registry_module()]);
    aliases.normalize();
    assert_eq!(aliases.root_aliases, vec![alias("a", "x"), alias("b", "root")]);
    assert_eq!(
        aliases.cell_aliases.entries[0].1,
        vec![alias("y", "w"), alias("z", "root")]
    );
    let cells: Vec<&str> = aliases
        .external_modules
        .iter()
        .map(|module| module.cell_name())
        .collect();
    assert_eq!(cells, vec!["a", "bzlmod_rules_go_"]);
    assert_eq!(aliases.registered_toolchains, vec!["t2", "t1"]);
    let again = format!("{:?}", aliases);
    aliases.normalize();
    assert_eq!(again, format!("{:?}", aliases));
}

#[test]
fn root_is_read_as_the_root_cell() {
    let aliases = module_aliases(Vec::new());
    assert_eq!(
        aliases.aliases_for_cell("main", "main"),
        vec![alias("b", "main"), alias("a", "x"), alias("b", "main")]
    );
    assert_eq!(
        aliases.aliases_for_cell("c", "main"),
        vec![alias("z", "main"), alias("y", "w")]
    );
    assert!(aliases.aliases_for_cell("d", "main").is_empty());
    let mut registry = ExternalCellRegistry::new();
    aliases.register_for_starlark_label_resolution(&mut registry, "main");
    assert_eq!(
        bazel_compat::external::bzlmod_cell_aliases_for_cell(&registry, "c"),
        vec![
            ("z".to_owned(), "main".to_owned()),
            ("y".to_owned(), "w".to_owned()),
        ]
    );
}

#[test]
fn modules_are_registered_with_their_origins() {
    let aliases = module_aliases(vec![registry_module()]);
    let mut registry = ExternalCellRegistry::new();
    aliases
        .register_external_cell_origins(&mut registry, &vec![registry_json()])
        .unwrap();
    assert!(external_cell_origin_for_cell(&registry, "bzlmod_rules_go_").is_some());
    let mut other = ExternalCellRegistry::new();
    let e = aliases
        .register_external_cell_origins(&mut other, &vec![no_json()])
        .err()
        .unwrap();
    assert_eq!(e.message, "Invalid bzlmod patch configuration");
    assert_eq!(
        bzlmod_canonical_repo_name_for_cell(&other, "bzlmod_rules_go_").as_deref(),
        Some("rules_go+")
    );
    assert!(external_cell_origin_for_cell(&other, "bzlmod_rules_go_").is_none());
}

#[test]
fn configuration_files_are_looked_for_in_order() {
    let mut folders = KeyMap::new();
    let sources = vec![
        ConfigSource::Folder(".buckconfig.d".to_owned()),
        ConfigSource::File(".buckconfig".to_owned()),
    ];
    match get_project_buckconfig_paths("cell", &sources, &folders) {
        Err(ConfigPathStop::NeedsFolder(path)) => assert_eq!(path.display(), "cell/.buckconfig.d"),
        other => panic!("unexpected answer {:?}", other),
    }
    folders.insert(
        "cell/.buckconfig.d".to_owned(),
        vec![ConfigPath::Project("cell/.buckconfig.d/a".to_owned())],
    );
    let paths = get_project_buckconfig_paths("cell", &sources, &folders).unwrap();
    let texts: Vec<&str> = paths.iter().map(|path| path.display()).collect();
    assert_eq!(texts, vec!["cell/.buckconfig.d/a", "cell/.buckconfig"]);

    let external = vec![
        ExternalConfigSource::Global(ConfigSource::File("/etc/buckconfig".to_owned())),
        ExternalConfigSource::User(ConfigSource::File(".buckconfig.local".to_owned())),
    ];
    let paths = get_external_buckconfig_paths(
        false,
        &external,
        &folders,
        Some("/home/me"),
        Some("/tmp/extra"),
    )
    .unwrap();
    let texts: Vec<&str> = paths.iter().map(|path| path.display()).collect();
    assert_eq!(
        texts,
        vec!["/etc/buckconfig", "/home/me/.buckconfig.local", "/tmp/extra"]
    );
    assert_eq!(
        get_external_buckconfig_paths(true, &external, &folders, None, None)
            .unwrap()
            .len(),
        0
    );
    assert!(get_external_buckconfig_paths(true, &external, &folders, None, Some("x")).is_err());
}

fn parsed(
    sections: &[(&str, &[(&str, &str)])],
    apply_bazel_compat_defaults: bool,
    bazel_project: bool,
) -> Result<BuckConfigBasedCells, String> {
    BuckConfigBasedCells::parse(
        config(sections),
        &mut ExternalCellRegistry::new(),
        apply_bazel_compat_defaults,
        bazel_project,
        &empty_bazelrc_options(),
    )
    .map_err(|e| e.message)
}

fn answer(name: &str) -> ExternalCellAnswer {
    ExternalCellAnswer {
        name: Ok(name.to_owned()),
        json: no_json(),
        bundled: Ok(()),
    }
}

#[test]
fn cells_of_a_project_come_from_its_root_configuration() {
    let cells = parsed(
        &[
            ("cells", &[("other", "./third/../other"), ("root", ".")]),
            ("cell_aliases", &[("o", "other")]),
            ("external_cells", &[("o", "bundled"), ("off", "disabled")]),
        ],
        false,
        true,
    )
    .unwrap();
    assert_eq!(
        cells.definitions,
        vec![
            ("other".to_owned(), "other".to_owned()),
            ("root".to_owned(), "".to_owned())
        ]
    );
    assert_eq!(cells.aliases, vec![("o".to_owned(), "other".to_owned())]);
    assert_eq!(
        cells.external,
        vec![("o".to_owned(), "bundled".to_owned())]
    );
    let mut registry = ExternalCellRegistry::new();
    let origins = cells
        .configure_external_cells(&mut registry, &vec![answer("other")], &vec![Ok(())])
        .ok()
        .unwrap();
    assert_eq!(
        origins,
        vec![(
            "other".to_owned(),
            ExternalCellOrigin::Bundled("other".to_owned())
        )]
    );
    assert_eq!(
        external_cell_origin_for_cell(&registry, "other"),
        Some(ExternalCellOrigin::Bundled("other".to_owned()))
    );
    let mut absent = answer("other");
    absent.bundled = Err(bazel_compat::module::InputError {
        message: "no such cell".to_owned(),
    });
    assert_eq!(
        cells
            .configure_external_cells(&mut registry, &vec![absent], &vec![Ok(())])
            .err()
            .map(|e| e.message),
        Some("Parsing cells: no such cell".to_owned())
    );
    let started = cells.root_config_with_bazel_compat_startup_defaults();
    assert!(started.sections().len() > cells.root_config.sections().len());
}

#[test]
fn cells_that_cannot_be_read_are_errors() {
    assert_eq!(
        parsed(&[], false, true).unwrap().definitions,
        vec![("root".to_owned(), "".to_owned())]
    );
    assert!(parsed(&[], false, false).unwrap().definitions.is_empty());
    assert_eq!(
        parsed(&[("cells", &[("up", "../up")])], false, false).err(),
        Some(
            "Parsing cells: expected alias path to be a relative path, but found `../up` for `up`"
                .to_owned()
        )
    );
    assert!(parsed(&[("cell_aliases", &[("a", "")])], false, false).is_err());
}

#[test]
fn aliases_of_a_directory_come_from_its_cell() {
    let project = config_for_cwd(
        LegacyBuckConfig::empty(),
        "root",
        true,
        true,
        &empty_bazelrc_options(),
    );
    let cells = ProjectCells {
        root_cell: "root".to_owned(),
        cells: KeyMap {
            entries: get_cell_definitions(&project, true, true).unwrap(),
        },
    };
    let aliases = |cell_name: &str, apply: bool| {
        cell_aliases_for_cwd(
            &ExternalCellRegistry::new(),
            config(&[("cell_aliases", &[("a", "root")])]),
            cell_name,
            &cells,
            apply,
            false,
            &empty_bazelrc_options(),
        )
        .ok()
        .unwrap()
    };
    match aliases("root", true) {
        CwdAliases::Configured(found) => {
            assert_eq!(found, vec![("a".to_owned(), "root".to_owned())])
        }
        other => panic!("{other:?}"),
    }
    match aliases("bzlmod_x", false) {
        CwdAliases::Configured(found) => assert_eq!(found.len(), 1),
        other => panic!("{other:?}"),
    }
    match aliases("bzlmod_x", true) {
        CwdAliases::Bazel(found) => {
            assert_eq!(found.get(&"root".to_owned()).map(String::as_str), Some("root"));
            assert_eq!(found.get(&"a".to_owned()).map(String::as_str), Some("root"));
        }
        other => panic!("{other:?}"),
    }
}

#[test]
fn external_cells_are_taken_in_one_after_another() {
    let cells = parsed(
        &[
            ("cells", &[("a", "a"), ("b", "b")]),
            ("external_cells", &[("a", "bundled"), ("b", "nonsense")]),
        ],
        false,
        false,
    )
    .unwrap();
    let refused = || bazel_compat::module::InputError {
        message: "refused".to_owned(),
    };
    let answers = vec![answer("a"), answer("b")];
    let mut registry = ExternalCellRegistry::new();
    let mut message = |marks| {
        cells
            .configure_external_cells(&mut registry, &answers, &marks)
            .err()
            .map(|e| e.message)
    };
    assert_eq!(
        message(vec![Err(refused()), Ok(())]).as_deref(),
        Some("Parsing cells: refused")
    );
    assert_eq!(
        message(vec![Ok(()), Err(refused())]).as_deref(),
        Some("Parsing cells: Unknown external cell origin `nonsense`")
    );
    assert!(external_cell_origin_for_cell(&registry, "a").is_some());
    assert!(external_cell_origin_for_cell(&registry, "b").is_none());
    assert_eq!(
        cells
            .configure_external_cell(&mut registry, 0, &answers[0])
            .ok()
            .map(|(name, _)| name)
            .as_deref(),
        Some("a")
    );
}

#[test]
fn startup_defaults_change_nothing_where_they_apply() {
    let texts = |config: &LegacyBuckConfig| format!("{:?}", config.sections());
    let again = |sections: &[(&str, &[(&str, &str)])]| {
        let once = config(sections).with_bazel_compat_startup_defaults();
        let twice = once.with_bazel_compat_startup_defaults();
        texts(&once) == texts(&twice)
    };
    assert!(again(&[]));
    assert!(again(&[("cells", &[("main", ".")])]));
    assert!(again(&[("cells", &[("main", "."), ("root", "x")]), ("cell_aliases", &[("root", "prelude")])]));
    assert!(again(&[("repositories", &[("other", "other")])]));
    assert!(!again(&[("cells", &[("root", ".")]), ("repository_aliases", &[("root", "prelude")])]));
    assert!(!again(&[("repositories", &[("main", ".")])]));
}
