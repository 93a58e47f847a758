//! Bazel projects in a build tool that knows cells and configurations: module
//! files and their resolution, `.bazelrc` options, the defaults that a project
//! gets from them, package listings, and targets under configurations.

pub mod attr_traversal;
pub mod attrs;
pub mod bazelrc;
pub mod bazelrc_files;
pub mod blocks;
pub mod build_settings;
pub mod calls;
pub mod cell_config;
pub mod compat;
pub mod components;
pub mod config;
pub mod config_paths;
pub mod configured_nodes;
pub mod defaults_again;
pub mod dep_discovery;
pub mod dep_graph;
pub mod dep_maps;
pub mod dependency_first;
pub mod digest;
pub mod discovery;
pub mod discovery_laws;
pub mod enclosing;
pub mod evaluation;
pub mod expr;
pub mod extension_repos;
pub mod external;
pub mod external_data;
pub mod filter;
pub mod gather_deps;
pub mod generated;
pub mod graph;
pub mod import_laws;
pub mod input_laws;
pub mod inspection;
pub mod json;
pub mod labels;
pub mod listing_laws;
pub mod listing_strategy;
pub mod module;
pub mod module_aliases;
pub mod module_file;
pub mod module_inputs;
pub mod module_overrides;
pub mod module_patches;
pub mod module_rules;
pub mod module_usages;
pub mod node_stages;
pub mod ordered;
pub mod origins;
pub mod package_groups;
pub mod package_listing;
pub mod paths;
pub mod platforms;
pub mod project_cells;
pub mod read_back;
pub mod registry_fetch;
pub mod repositories;
pub mod resolution;
pub mod resolve;
pub mod resolved;
pub mod scan;
pub mod sections;
pub mod select;
pub mod selection;
pub mod selection_laws;
pub mod sorted_lists;
pub mod text;
pub mod toolchains;
pub mod transition_inputs;
pub mod version;
pub mod visibility;
