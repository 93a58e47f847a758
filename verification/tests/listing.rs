use bazel_compat::external::{
    BzlmodCellSetup, BzlmodGeneratedCellGenerator, BzlmodGeneratedCellSetup,
    BzlmodHostPlatformSetup, ExternalCellOrigin, GitCellSetup,
};
use bazel_compat::listing_strategy::{
    bazel_compat_enabled, bazel_compat_package_listing_enabled,
    build_file_requires_recursive_listing, may_contain_starlark_identifier,
    package_listing_strategy, PackageListingStrategy,
};

#[test]
fn test_build_file_requires_recursive_listing() {
    assert!(build_file_requires_recursive_listing(
        "srcs = glob([\"*.go\"])"
    ));
    assert!(build_file_requires_recursive_listing(
        "g = glob\ng([\"**\"])"
    ));
    assert!(build_file_requires_recursive_listing(
        "native.glob([\"*\"])"
    ));
    assert!(build_file_requires_recursive_listing(
        "subpackages(include = [\"foo/**\"])"
    ));
    assert!(build_file_requires_recursive_listing("sub_packages()"));
    assert!(!build_file_requires_recursive_listing(
        "load(\":defs.bzl\", \"macro\")"
    ));
    assert!(!build_file_requires_recursive_listing(
        "go_library(name = \"globular\")"
    ));
    assert!(!build_file_requires_recursive_listing(
        "my_glob_helper(name = \"x\")"
    ));
    assert!(!build_file_requires_recursive_listing(
        "genrule(name = \"upload\")"
    ));
}

fn selective(paths: &[&str]) -> PackageListingStrategy {
    PackageListingStrategy::selective(paths.iter().map(|path| path.to_string()).collect())
}

#[test]
fn identifiers_after_a_partial_occurrence_are_found() {
    assert!(may_contain_starlark_identifier("globs glob(x)", "glob"));
    assert!(may_contain_starlark_identifier("globglob", "glob"));
    assert!(!may_contain_starlark_identifier("globs globe", "glob"));
    assert!(!may_contain_starlark_identifier("", "glob"));
}

#[test]
fn selective_strategies_are_sorted_and_deduplicated() {
    assert_eq!(
        selective(&["b", "a", "b"]),
        PackageListingStrategy::Selective(vec!["a".to_owned(), "b".to_owned()])
    );
    assert_eq!(selective(&[]), PackageListingStrategy::Shallow);
    assert_eq!(selective(&["a", ""]), PackageListingStrategy::Recursive);
}

#[test]
fn selective_strategies_recurse_towards_and_below_their_paths() {
    let strategy = selective(&["src/main"]);
    assert!(strategy.should_recurse_into("src"));
    assert!(strategy.should_recurse_into("src/main"));
    assert!(strategy.should_recurse_into("src/main/java"));
    assert!(!strategy.should_recurse_into("src/mai"));
    assert!(!strategy.should_recurse_into("src/mainframe"));
    assert!(!strategy.should_recurse_into("test"));
    assert!(PackageListingStrategy::Recursive.should_recurse_into("test"));
    assert!(!PackageListingStrategy::Shallow.should_recurse_into("test"));
}

#[test]
fn wider_strategies_cover_narrower_ones() {
    let src = selective(&["src"]);
    let main = selective(&["src/main"]);
    assert!(src.covers(&main));
    assert!(!main.covers(&src));
    assert!(src.covers(&src));
    assert!(PackageListingStrategy::Recursive.covers(&src));
    assert!(src.covers(&PackageListingStrategy::Shallow));
    assert!(!src.covers(&PackageListingStrategy::Recursive));
    assert!(!PackageListingStrategy::Shallow.covers(&src));
}

#[test]
fn unions_cover_both_sides() {
    let a = selective(&["a"]);
    let b = selective(&["b"]);
    let both = a.union(&b);
    assert_eq!(both, selective(&["a", "b"]));
    assert!(both.covers(&a) && both.covers(&b));
    assert_eq!(a.union(&PackageListingStrategy::Shallow), a);
    assert_eq!(PackageListingStrategy::Shallow.union(&b), b);
    assert_eq!(
        a.union(&PackageListingStrategy::Recursive),
        PackageListingStrategy::Recursive
    );
}

#[test]
fn only_bazel_packages_without_globs_are_listed_shallowly() {
    assert_eq!(
        package_listing_strategy(true, Some("genrule()")),
        PackageListingStrategy::Shallow
    );
    assert_eq!(
        package_listing_strategy(true, Some("glob([])")),
        PackageListingStrategy::Recursive
    );
    assert_eq!(
        package_listing_strategy(true, None),
        PackageListingStrategy::Recursive
    );
    assert_eq!(
        package_listing_strategy(false, Some("genrule()")),
        PackageListingStrategy::Recursive
    );
}

#[test]
fn compatibility_is_switched_on_by_a_few_words() {
    for value in ["1", "true", "True", "TRUE", " true "] {
        assert!(bazel_compat_enabled(Some(value)));
    }
    for value in ["0", "yes", "", "tRue"] {
        assert!(!bazel_compat_enabled(Some(value)));
    }
    assert!(!bazel_compat_enabled(None));
}

#[test]
fn cells_of_modules_are_listed_as_bazel_lists_them() {
    let module = ExternalCellOrigin::Bzlmod(BzlmodCellSetup {
        module_name: "m".to_owned(),
        version: "1".to_owned(),
        canonical_repo_name: "m+".to_owned(),
        local_path: None,
        url: String::new(),
        urls: Vec::new(),
        integrity: String::new(),
        strip_prefix: None,
        archive_type: None,
        patches: Vec::new(),
        overlays: Vec::new(),
        patch_strip: 0,
    });
    let generated = ExternalCellOrigin::BzlmodGenerated(BzlmodGeneratedCellSetup {
        canonical_repo_name: "host".to_owned(),
        generator: BzlmodGeneratedCellGenerator::HostPlatform(BzlmodHostPlatformSetup {}),
    });
    for origin in [&module, &generated] {
        assert!(bazel_compat_package_listing_enabled(Some(origin), None));
        assert!(bazel_compat_package_listing_enabled(Some(origin), Some("false")));
    }
    let bundled = ExternalCellOrigin::Bundled("prelude".to_owned());
    let git = ExternalCellOrigin::Git(GitCellSetup {
        git_origin: "o".to_owned(),
        commit: "c".to_owned(),
        object_format: None,
    });
    for origin in [None, Some(&bundled), Some(&git)] {
        assert!(!bazel_compat_package_listing_enabled(origin, None));
        assert!(!bazel_compat_package_listing_enabled(origin, Some("false")));
        assert!(bazel_compat_package_listing_enabled(origin, Some(" true ")));
    }
}
