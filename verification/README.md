# bazel_compat

Lets a build tool that is organised in cells and configurations take in Bazel
projects. The logic is a verified library: every function in `src/` states in
its contract what it returns, and Verus proves it.

## What is in `src/`

- Texts and maps: `text`, `ordered`, `scan`, `calls`, `blocks`, `expr`, `json`,
  `digest`, `paths`, `version`.
- Module files: `module`, `module_file`, `module_usages`, `module_rules`,
  `module_overrides`, `module_inputs`, `input_laws`, `module_patches`,
  `discovery`, `dep_discovery`, `discovery_laws`, `registry_fetch`.
- Module resolution: `selection`, `select`, `selection_laws`,
  `dependency_first`, `dep_graph`, `graph`, `labels`, `extension_repos`,
  `import_laws`, `generated`, `evaluation`, `resolve`, `resolution`, `resolved`,
  `repositories`, `inspection`.
- External cells and configurations: `external`, `config`, `sections`, `compat`,
  `read_back`, `defaults_again`, `origins`, `filter`, `cell_config`, `project_cells`,
  `module_aliases`, `external_data`, `components`, `config_paths`, `bazelrc`,
  `bazelrc_files`.
- Package listings: `listing_strategy`, `package_listing`, `listing_laws`,
  `sorted_lists`, `enclosing`.
- Targets: `attrs`, `attr_traversal`, `gather_deps`, `dep_maps`, `visibility`,
  `package_groups`, `transition_inputs`, `configured_nodes`, `node_stages`,
  `toolchains`, `platforms`, `build_settings`.

Functions that need a file, a directory or a target take what is known already
and answer with what has to be looked up next. `app/` looks it up, and holds the
rest of what touches the machine: files, JSON, the shared registry of cells.

## What is not proved

The contracts of the few functions marked `external_body`, and of the two
`assume_specification` items, are believed: they say what `serde_json`, `sha2`,
`hex`, `blake3`, `starlark_map` and the standard library do. Each names the
function that it stands for.
