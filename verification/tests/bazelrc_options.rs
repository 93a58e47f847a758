use bazel_compat::bazelrc::{
    bazelrc_arg_value, bazelrc_command_line_build_setting,
    bazelrc_command_line_list_build_setting_entries, bazelrc_options_from_records,
    bazelrc_record_applies, bazelrc_tokenize, checked_bazelrc_options, BazelrcRecord,
};
use bazel_compat::bazelrc_files::{
    bazelrc_import_path, collect_bazelrc_records, get_bazelrc_options, BazelrcFiles,
    BazelrcLookup, ImportPath,
};
use bazel_compat::ordered::{KeyMap, KeySet};
use bazel_compat::paths::{join_normalized, ConfigPath};
use bazel_compat::resolved::BazelCompatBazelrcOptions;

/// Looks files up among the given ones until the options are known.
fn options_of(files: &[(&str, &str)]) -> Result<BazelCompatBazelrcOptions, String> {
    let mut known: KeyMap<String, Option<Vec<String>>> = KeyMap::new();
    let mut outside: KeyMap<String, Option<String>> = KeyMap::new();
    loop {
        match get_bazelrc_options("", &known, &outside, "linux") {
            BazelrcLookup::Options(options) => return Ok(options),
            BazelrcLookup::NeedsFile(path) => {
                let found = files
                    .iter()
                    .find(|(name, _)| *name == path.display())
                    .map(|(_, text)| text.lines().map(str::to_owned).collect());
                known.insert(path.display().to_owned(), found);
            }
            BazelrcLookup::NeedsOutside(path) => outside.insert(path, None),
            BazelrcLookup::Failed(e) => return Err(e.message),
        }
    }
}

fn record(command: &str, args: &[&str]) -> BazelrcRecord {
    BazelrcRecord {
        command: command.to_owned(),
        args: args.iter().map(|arg| arg.to_string()).collect(),
    }
}

#[test]
fn test_bazelrc_workspace_import_normalizes_path() {
    let options = options_of(&[
        (
            ".bazelrc",
            "try-import %workspace%/configs/../imported.bazelrc\n",
        ),
        ("imported.bazelrc", "build --copt=-DFROM_IMPORTED\n"),
    ])
    .unwrap();

    assert_eq!(options.copt, vec!["-DFROM_IMPORTED"]);
}

#[test]
fn test_bazelrc_bazel_native_configuration_flags() {
    let options = options_of(&[(
        ".bazelrc",
        "build --cpu=k8 --host_cpu=k8 --platforms=//platforms:linux,@platforms//cpu:x86_64 --javacopt=-Akey=a,b\n",
    )])
    .unwrap();

    assert_eq!(
        options.command_line_build_settings,
        vec![
            "string\t//command_line_option:cpu\tk8",
            "string\t//command_line_option:host_cpu\tk8",
            "list\t//command_line_option:platforms\t//platforms:linux",
            "list\t//command_line_option:platforms\t@platforms//cpu:x86_64",
            "list\t//command_line_option:javacopt\t-Akey=a,b",
        ]
    );
}

#[test]
fn test_bazelrc_try_import_workspace_path_outside_project_is_optional() {
    let options = options_of(&[(
        ".bazelrc",
        "try-import %workspace%/../../internal_tools/preset.bazelrc\nbuild --copt=-DLOCAL\n",
    )])
    .unwrap();

    assert_eq!(options.copt, vec!["-DLOCAL"]);
}

#[test]
fn test_bazelrc_import_workspace_path_outside_project_is_required() {
    let result = options_of(&[(
        ".bazelrc",
        "import %workspace%/../../internal_tools/preset.bazelrc\n",
    )]);

    assert!(result.is_err());
    assert_eq!(
        result.err().unwrap(),
        "Bazel rc import `%workspace%/../../internal_tools/preset.bazelrc` in `.bazelrc` could not be resolved"
    );
}

#[test]
fn words_are_parted_by_whitespace_outside_quotes() {
    assert_eq!(
        bazelrc_tokenize("build  --copt='-D A' \"x # y\"z a\\ b # rest"),
        vec!["build", "--copt=-D A", "x # yz", "a b"]
    );
    assert_eq!(bazelrc_tokenize("   # only a comment"), Vec::<String>::new());
    assert_eq!(bazelrc_tokenize("a\\#b"), vec!["a#b"]);
    assert_eq!(bazelrc_tokenize("'open quote"), vec!["open quote"]);
}

#[test]
fn imports_lead_from_the_root_from_the_file_or_anywhere() {
    let current = ConfigPath::Project("dir/.bazelrc".to_owned());
    let target = |import: &str| match bazelrc_import_path("cell", &current, import) {
        ImportPath::File(ConfigPath::Project(path)) => format!("project {path}"),
        ImportPath::File(ConfigPath::Global(path)) => format!("global {path}"),
        ImportPath::Outside(path) => format!("outside {path}"),
        ImportPath::Invalid(e) => format!("invalid {}", e.message),
    };
    assert_eq!(target("%workspace%/a/./b"), "project cell/a/b");
    assert_eq!(target("%workspace%"), "project cell");
    assert_eq!(target("%workspace%/../../x"), "outside ../../x");
    assert_eq!(target("/etc/bazelrc"), "global /etc/bazelrc");
    assert_eq!(target("other"), "project dir/other");
    assert_eq!(target("../other"), "project other");
    assert_eq!(
        target("../../other"),
        "invalid expected a normalized path but got an un-normalized path instead: `../../other`"
    );
    let global = ConfigPath::Global("/home/me/.bazelrc".to_owned());
    match bazelrc_import_path("", &global, "more") {
        ImportPath::File(path) => assert_eq!(path.display(), "/home/me/more"),
        _ => panic!("expected a file"),
    }
}

#[test]
fn joined_paths_have_no_dots() {
    assert_eq!(join_normalized("a/b", "../c/./d").as_deref(), Some("a/c/d"));
    assert_eq!(join_normalized("", "").as_deref(), Some(""));
    assert_eq!(join_normalized("a", "..").as_deref(), Some(""));
    assert_eq!(join_normalized("a", "../.."), None);
}

#[test]
fn a_required_file_has_to_exist() {
    assert_eq!(
        options_of(&[(".bazelrc", "import missing\n")]).err().unwrap(),
        "Bazel rc file `missing` does not exist"
    );
    assert!(options_of(&[(".bazelrc", "try-import missing\n")]).is_ok());
    assert!(options_of(&[]).unwrap().copt.is_empty());
}

#[test]
fn files_are_read_once_and_in_place() {
    let options = options_of(&[
        (
            ".bazelrc",
            "build --copt=1\nimport %workspace%/more\nbuild --copt=3\nimport %workspace%/more\n",
        ),
        ("more", "build --copt=2\nimport .bazelrc\n"),
    ])
    .unwrap();
    assert_eq!(options.copt, vec!["1", "2", "3"]);
}

#[test]
fn a_file_that_is_not_known_is_asked_for() {
    match collect_bazelrc_records("cell", &KeyMap::new(), &KeyMap::new()) {
        BazelrcFiles::NeedsFile(path) => assert_eq!(path.display(), "cell/.bazelrc"),
        _ => panic!("expected a file to be asked for"),
    }
}

#[test]
fn records_apply_to_builds_and_to_active_configurations() {
    let mut active = KeySet::new();
    assert!(bazelrc_record_applies(&record("build", &[]), &active));
    assert!(bazelrc_record_applies(&record("common", &[]), &active));
    assert!(!bazelrc_record_applies(&record("test", &[]), &active));
    assert!(!bazelrc_record_applies(&record("build:opt", &[]), &active));
    active.insert("opt".to_owned());
    assert!(bazelrc_record_applies(&record("build:opt", &[]), &active));
    assert!(bazelrc_record_applies(&record("build:", &[]), &active));
}

#[test]
fn configurations_switch_one_another_on_in_any_order() {
    let options = bazelrc_options_from_records(
        &vec![
            record("build:b", &["--cxxopt", "-b"]),
            record("build:a", &["--config=b"]),
            record("build", &["--config", "a", "--copt", "-x"]),
        ],
        "",
    );
    assert_eq!(options.cxxopt, vec!["-b"]);
    assert_eq!(options.copt, vec!["-x"]);
}

#[test]
fn the_host_configuration_is_switched_on_by_its_option() {
    let records = vec![
        record("common", &["--enable_platform_specific_config"]),
        record("build:linux", &["--host_copt=-l"]),
        record("build:macos", &["--host_copt=-m"]),
    ];
    assert_eq!(
        bazelrc_options_from_records(&records, "linux").host_copt,
        vec!["-l"]
    );
    assert_eq!(
        bazelrc_options_from_records(&records, "macos").host_copt,
        vec!["-m"]
    );
    assert!(bazelrc_options_from_records(&records, "").host_copt.is_empty());
    let off = vec![
        record("common", &["--enable_platform_specific_config"]),
        record("build", &["--noenable_platform_specific_config"]),
        record("build:linux", &["--host_copt=-l"]),
    ];
    assert!(bazelrc_options_from_records(&off, "linux").host_copt.is_empty());
}

#[test]
fn options_go_to_their_lists() {
    let options = bazelrc_options_from_records(
        &vec![record(
            "build",
            &[
                "--copt=1",
                "--conlyopt=2",
                "--cxxopt=3",
                "--host_copt=4",
                "--host_conlyopt=5",
                "--host_cxxopt=6",
                "--per_file_copt=7",
                "--macos_minimum_os=8",
                "--host_macos_minimum_os=9",
                "--unknown=10",
            ],
        )],
        "",
    );
    assert_eq!(options.copt, vec!["1"]);
    assert_eq!(options.conlyopt, vec!["2"]);
    assert_eq!(options.cxxopt, vec!["3"]);
    assert_eq!(options.host_copt, vec!["4"]);
    assert_eq!(options.host_conlyopt, vec!["5"]);
    assert_eq!(options.host_cxxopt, vec!["6"]);
    assert_eq!(options.per_file_copt, vec!["7"]);
    assert_eq!(options.macos_minimum_os, vec!["8"]);
    assert_eq!(options.host_macos_minimum_os, vec!["9"]);
    assert!(options.command_line_build_settings.is_empty());
}

#[test]
fn an_option_without_its_value_is_noticed() {
    assert!(checked_bazelrc_options(&vec![record("build", &["--copt"])], "").is_none());
    assert!(checked_bazelrc_options(&vec![record("build", &["--config"])], "").is_none());
    assert!(checked_bazelrc_options(&vec![record("test", &["--copt"])], "").is_some());
    assert!(checked_bazelrc_options(&vec![record("build", &["--cpu"])], "").is_some());
}

#[test]
fn values_stand_behind_an_equals_sign_or_in_the_next_argument() {
    let args = vec!["--copt=a".to_owned(), "--copt".to_owned(), "b".to_owned()];
    let mut index = 0;
    assert_eq!(
        bazelrc_arg_value(&args, &mut index, "--copt").as_deref(),
        Some("a")
    );
    assert_eq!(index, 0);
    index = 1;
    assert_eq!(
        bazelrc_arg_value(&args, &mut index, "--copt").as_deref(),
        Some("b")
    );
    assert_eq!(index, 2);
    assert_eq!(bazelrc_arg_value(&args, &mut index, "--copt"), None);
    assert_eq!(index, 2);
}

#[test]
fn labels_are_settings_of_their_own() {
    let setting = |arg: &str| {
        let mut index = 0;
        bazelrc_command_line_build_setting(&vec![arg.to_owned()], &mut index)
    };
    assert_eq!(
        setting("--//a:b"),
        Some(vec!["bool\t//a:b\ttrue".to_owned()])
    );
    assert_eq!(
        setting("--no//a:b"),
        Some(vec!["bool\t//a:b\tfalse".to_owned()])
    );
    assert_eq!(
        setting("--@r//a:b=False"),
        Some(vec!["bool\t@r//a:b\tfalse".to_owned()])
    );
    assert_eq!(
        setting("--:b=x=y"),
        Some(vec!["string\t:b\tx=y".to_owned()])
    );
    assert_eq!(setting("--nocpu=k8"), None);
    assert_eq!(setting("--"), None);
    assert_eq!(setting("-x"), None);
}

#[test]
fn only_platforms_are_split_at_commas() {
    assert_eq!(
        bazelrc_command_line_list_build_setting_entries("platforms", "k", " a, ,b "),
        vec!["list\tk\ta", "list\tk\tb"]
    );
    assert_eq!(
        bazelrc_command_line_list_build_setting_entries("javacopt", "k", "a,b"),
        vec!["list\tk\ta,b"]
    );
}
