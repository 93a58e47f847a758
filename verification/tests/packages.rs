use bazel_compat::enclosing::{get_enclosing_package, get_enclosing_packages, EnclosingStop};
use bazel_compat::listing_strategy::PackageListingStrategy;
use bazel_compat::module::InputError;
use bazel_compat::ordered::KeyMap;
use bazel_compat::package_listing::{
    gather_package_listing, CellPath, DirEntry, DirectoryDoesNotExistSuggestion, FileIgnoreReason,
    GatherPackageListingError, GatherStop, KnownDir, PackageListing, ReadDirError,
};

fn path(cell: &str, path: &str) -> CellPath {
    CellPath {
        cell: cell.to_owned(),
        path: path.to_owned(),
    }
}

fn dir(entries: &[&str]) -> KnownDir {
    KnownDir::Entries(
        entries
            .iter()
            .map(|name| DirEntry {
                file_name: name.trim_end_matches('/').to_owned(),
                is_dir: name.ends_with('/'),
            })
            .collect(),
    )
}

fn candidates() -> Vec<String> {
    vec!["BUILD.bazel".to_owned(), "BUILD".to_owned()]
}

fn known() -> KeyMap<String, KnownDir> {
    let mut known = KeyMap::new();
    known.insert("".to_owned(), dir(&["z.go", "sub/", "BUILD", "pkg/", "a.go"]));
    known.insert("sub".to_owned(), dir(&["deep/", "b.go"]));
    known.insert("sub/deep".to_owned(), dir(&["c.go"]));
    known.insert("pkg".to_owned(), dir(&["BUILD.bazel", "d.go"]));
    known
}

fn gather(
    strategy: PackageListingStrategy,
    known: &KeyMap<String, KnownDir>,
) -> Result<PackageListing, GatherStop> {
    gather_package_listing(&path("cell", "p"), &candidates(), &strategy, known)
}

#[test]
fn listings_hold_files_directories_and_packages_in_order() {
    let listing = gather(PackageListingStrategy::Recursive, &known()).ok().unwrap();
    assert_eq!(
        listing.files(),
        vec!["BUILD", "a.go", "sub/b.go", "sub/deep/c.go", "z.go"]
    );
    assert_eq!(listing.directories(), vec!["sub", "sub/deep"]);
    assert_eq!(listing.subpackages(), vec!["pkg"]);
    assert_eq!(listing.buildfile(), "BUILD");
    assert!(listing.contains_file("sub/b.go"));
    assert!(!listing.contains_file("pkg/d.go"));
}

#[test]
fn shallow_listings_stop_at_directories() {
    let listing = gather(PackageListingStrategy::Shallow, &known()).ok().unwrap();
    assert_eq!(listing.files(), vec!["BUILD", "a.go", "z.go"]);
    assert_eq!(listing.directories(), vec!["pkg", "sub"]);
    assert!(listing.subpackages().is_empty());
    let selective = PackageListingStrategy::selective(vec!["sub/deep".to_owned()]);
    let listing = gather(selective, &known()).ok().unwrap();
    assert_eq!(
        listing.files(),
        vec!["BUILD", "a.go", "sub/b.go", "sub/deep/c.go", "z.go"]
    );
    assert_eq!(listing.directories(), vec!["pkg", "sub", "sub/deep"]);
}

#[test]
fn directories_that_are_not_known_are_asked_for() {
    let mut known = KeyMap::new();
    match gather(PackageListingStrategy::Recursive, &known) {
        Err(GatherStop::NeedsDir(dir)) => assert_eq!(dir, ""),
        _ => panic!("expected a directory to be asked for"),
    }
    known.insert("".to_owned(), dir(&["BUILD", "sub/"]));
    match gather(PackageListingStrategy::Recursive, &known) {
        Err(GatherStop::NeedsDir(dir)) => assert_eq!(dir, "sub"),
        _ => panic!("expected a directory to be asked for"),
    }
    known.insert(
        "sub".to_owned(),
        KnownDir::Failed(ReadDirError::NotADirectory(
            path("cell", "p/sub"),
            "file".to_owned(),
        )),
    );
    match gather(PackageListingStrategy::Recursive, &known) {
        Err(GatherStop::Failed(e)) => assert_eq!(
            e.display(),
            "package `cell//p/sub:` does not exist\n         ^---------^\n   path `cell//p/sub` is a file, not a directory"
        ),
        _ => panic!("expected an error"),
    }
}

#[test]
fn errors_are_shown_with_their_place() {
    let package = || path("fbsource", "foo/target/x");
    assert_eq!(
        GatherPackageListingError::no_build_file(
            &package(),
            &vec![
                "TARGETS.v2".to_owned(),
                "TARGETS".to_owned(),
                "BUCK".to_owned(),
            ]
        )
        .display(),
        "package `fbsource//foo/target/x:` does not exist\n    missing `TARGETS` file (also missing alternatives `TARGETS.v2`, `BUCK`)"
    );
    assert_eq!(
        GatherPackageListingError::no_build_file(&package(), &vec!["BUCK".to_owned()]).display(),
        "package `fbsource//foo/target/x:` does not exist\n    missing `BUCK` file"
    );
    let missing = |suggestion: DirectoryDoesNotExistSuggestion, at: &str| {
        GatherPackageListingError::from_read_dir(
            &package(),
            &ReadDirError::DirectoryDoesNotExist(path("c", at), suggestion),
        )
        .display()
    };
    assert_eq!(
        missing(DirectoryDoesNotExistSuggestion::NoSuggestion, "a"),
        "package `fbsource//foo/target/x:` does not exist\n         ^--^\n    dir `c//a` does not exist. "
    );
    assert!(missing(DirectoryDoesNotExistSuggestion::Typo("b".to_owned()), "a")
        .ends_with("Did you mean `c//b`?"));
    assert!(missing(DirectoryDoesNotExistSuggestion::Typo("b".to_owned()), "d/a")
        .ends_with("Did you mean `c//d/b`?"));
    assert!(missing(
        DirectoryDoesNotExistSuggestion::Cell(vec!["x".to_owned(), "y".to_owned()]),
        "a"
    )
    .ends_with("Did you mean one of [`x`, `y`]?"));
    let ignored = |reason: FileIgnoreReason| {
        GatherPackageListingError::from_read_dir(
            &package(),
            &ReadDirError::DirectoryIsIgnored(path("fbsource", "foo"), reason),
        )
        .display()
    };
    assert_eq!(
        ignored(FileIgnoreReason::IgnoredByPattern("foo/**".to_owned())),
        "package `fbsource//foo/target/x:` does not exist\n         ^-----------^\n    dir `fbsource//foo` does not exist (project.ignore contains `foo/**`)"
    );
    assert_eq!(
        ignored(FileIgnoreReason::IgnoredByCell("foo".to_owned())),
        "package `fbsource//foo/target/x:` does not exist\n         ^-----------^\n    this package is using the wrong cell, use `foo//target/x` instead"
    );
    assert_eq!(
        GatherPackageListingError::error(&package(), "boom".to_owned()).display(),
        "gathering package listing for `fbsource//foo/target/x`"
    );
}

#[test]
fn packages_that_enclose_a_path_are_found() {
    let mut known = KeyMap::new();
    known.insert("".to_owned(), dir(&["BUILD", "a/"]));
    known.insert("a".to_owned(), dir(&["b/"]));
    known.insert("a/b".to_owned(), dir(&["BUILD.bazel", "c"]));
    let file = path("cell", "a/b/c");
    assert_eq!(
        get_enclosing_package(&known, &candidates(), &file),
        Ok("a/b".to_owned())
    );
    assert_eq!(
        get_enclosing_packages(&known, &candidates(), &file, ""),
        Ok(vec!["a/b".to_owned(), "".to_owned()])
    );
    assert_eq!(
        get_enclosing_packages(&known, &candidates(), &file, "a"),
        Ok(vec!["a/b".to_owned()])
    );
    assert_eq!(
        get_enclosing_package(&known, &candidates(), &path("cell", "x/y")),
        Err(EnclosingStop::NeedsDir("x".to_owned()))
    );
    known.insert("".to_owned(), dir(&["a/"]));
    assert_eq!(
        get_enclosing_package(&known, &candidates(), &path("cell", "a/f")),
        Err(EnclosingStop::Failed(InputError {
            message: "Expected `cell//a/f` to be within a package directory, but there was no buildfile in any parent directories. Expected one of `BUILD.bazel`, `BUILD`".to_owned(),
        }))
    );
    known.insert(
        "u".to_owned(),
        KnownDir::Failed(ReadDirError::Error("io".to_owned())),
    );
    assert_eq!(
        get_enclosing_package(&known, &candidates(), &path("cell", "u/f")),
        Err(EnclosingStop::Unreadable("u".to_owned()))
    );
}
