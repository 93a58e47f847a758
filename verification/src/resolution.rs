//! The modules of a project as cells: archives, patches, aliases, toolchains.

use vstd::prelude::*;
use vstd::string::*;
use crate::digest::{hex_text, sha256, sha256_hex};
use crate::external::{bzlmod_cell_name, cell_name_of};
use crate::json::{json_array, json_strings};
use crate::labels::{
    CellAliases, aliases_in, qualified_toolchain, qualify_bzlmod_registered_toolchain,
};
use crate::module::{
    BazelDep, BazelDepModel, BcrSourceJson, BcrSourceJsonModel, BzlmodArchiveOverride,
    BzlmodArchiveOverrideModel, BzlmodDepGraph, BzlmodDepGraphModel, BzlmodExtensionId,
    BzlmodExtensionIdModel, BzlmodLocalPathOverride, BzlmodLocalPathOverrideModel,
    BzlmodOverlayConfig, BzlmodOverlayConfigModel, BzlmodPatchConfig, BzlmodPatchConfigModel,
    BzlmodRootPatch, BzlmodRootPatchModel, BzlmodSingleVersionOverride,
    BzlmodSingleVersionOverrideModel, DiscoveredBcrModule, DiscoveredBcrModuleModel, InputError,
    RootBzlmodModule, RootBzlmodModuleModel,
};
use crate::ordered::{
    Duplicate, KeyMap, dedup, dedup_preserve_order, law_dedup, lookup, put, result_view,
    sort_and_dedup, sorted_set_of,
};
use crate::resolve::{generated_repos, resolve_generated_bzlmod_repos};
use crate::resolved::{
    BazelCompatCellAlias, BazelCompatCellAliasModel, BcrResolution, BcrResolutionModel,
    ResolvedExternalModule, ResolvedExternalModuleModel, ResolvedRegistryModule,
    ResolvedRegistryModuleModel,
};
use crate::select::{bzlmod_selected_canonical_repo_name, selected_name};
use crate::selection::{Discovered, ModuleKey};
use crate::text::{Text, concat3, same, strip_prefix};

verus! {

/// The URLs of a module's archive: the list where there is one, else the one URL.
pub open spec fn source_urls(source: BcrSourceJsonModel) -> Seq<Text> {
    match source.urls {
        Some(urls) if urls.len() > 0 => urls,
        _ => seq![source.url],
    }
}

/// The URLs of a module's archive.
pub fn bcr_source_urls(source_json: &BcrSourceJson) -> (r: Vec<String>)
    ensures
        r.deep_view() == source_urls(source_json.deep_view()),
{
    match &source_json.urls {
        Some(urls) => {
            assert(urls.deep_view().len() == urls@.len());
            if urls.len() > 0 {
                return urls.duplicate();
            }
        },
        None => {},
    }
    let mut one: Vec<String> = Vec::new();
    one.push(source_json.url.clone());
    assert(one.deep_view() =~= seq![source_json.url@]);
    one
}

/// The address of a file of a module in a registry.
pub open spec fn registry_file(registry: Text, dep: BazelDepModel, kind: Text, file: Text) -> Text {
    registry + "/modules/"@ + dep.name + "/"@ + dep.version + kind + file
}

fn registry_file_of(registry: &str, dep: &BazelDep, kind: &str, file: &str) -> (r: String)
    ensures
        r@ == registry_file(registry@, dep.deep_view(), kind@, file@),
{
    let mut url = concat3(registry, "/modules/", dep.name.as_str());
    url.append("/");
    url.append(dep.version.as_str());
    url.append(kind);
    url.append(file);
    url
}

/// The patches that the registry has for a module.
pub open spec fn registry_patches(
    registry: Text,
    dep: BazelDepModel,
    source: BcrSourceJsonModel,
) -> Seq<BzlmodPatchConfigModel> {
    match source.patches {
        Some(patches) => Seq::new(
            patches.len(),
            |i: int|
                BzlmodPatchConfigModel {
                    url: registry_file(registry, dep, "/patches/"@, patches[i].0),
                    integrity: patches[i].1,
                    path: None,
                    content_sha256: None,
                    patch_strip: source.patch_strip,
                },
        ),
        None => seq![],
    }
}

/// The patches that the root module has for a module.
pub open spec fn root_patches(patches: Seq<BzlmodRootPatchModel>, strip: Option<u32>) -> Seq<
    BzlmodPatchConfigModel,
> {
    Seq::new(
        patches.len(),
        |i: int|
            BzlmodPatchConfigModel {
                url: seq![],
                integrity: seq![],
                path: Some(patches[i].path),
                content_sha256: Some(hex_text(sha256(patches[i].content))),
                patch_strip: strip,
            },
    )
}

/// The patches of a module: the registry's, then those of its archive override,
/// then those of its version override.
pub open spec fn patch_configs(
    registry: Text,
    dep: BazelDepModel,
    source: BcrSourceJsonModel,
    archive: Option<BzlmodArchiveOverrideModel>,
    version: Option<BzlmodSingleVersionOverrideModel>,
) -> Seq<BzlmodPatchConfigModel> {
    registry_patches(registry, dep, source) + (match archive {
        Some(o) => root_patches(o.patches, o.patch_strip),
        None => seq![],
    }) + (match version {
        Some(o) => root_patches(o.patches, o.patch_strip),
        None => seq![],
    })
}

fn push_root_patches(
    out: &mut Vec<BzlmodPatchConfig>,
    patches: &Vec<BzlmodRootPatch>,
    strip: Option<u32>,
)
    ensures
        final(out).deep_view() == old(out).deep_view() + root_patches(patches.deep_view(), strip),
{
    let ghost first = out.deep_view();
    let ghost added = root_patches(patches.deep_view(), strip);
    let mut i: usize = 0;
    while i < patches.len()
        invariant
            added == root_patches(patches.deep_view(), strip),
            0 <= i <= patches@.len(),
            out.deep_view() =~= first + added.take(i as int),
        decreases patches.len() - i,
    {
        let ghost before = out.deep_view();
        assert(patches.deep_view()[i as int] == patches@[i as int].deep_view());
        let url = String::new();
        let integrity = String::new();
        assert(url@ =~= seq![] && integrity@ =~= seq![]);
        let config = BzlmodPatchConfig {
            url,
            integrity,
            path: Some(patches[i].path.clone()),
            content_sha256: Some(sha256_hex(patches[i].content.as_str())),
            patch_strip: strip,
        };
        assert(config.deep_view() == added[i as int]);
        out.push(config);
        assert(out.deep_view() =~= before.push(added[i as int]));
        i += 1;
    }
    assert(added.take(i as int) =~= added);
}

/// The patches of a module.
pub fn bzlmod_patch_configs(
    registry: &str,
    dep: &BazelDep,
    source_json: &BcrSourceJson,
    archive_override: Option<&BzlmodArchiveOverride>,
    single_version_override: Option<&BzlmodSingleVersionOverride>,
) -> (r: Vec<BzlmodPatchConfig>)
    ensures
        r.deep_view() == patch_configs(
            registry@,
            dep.deep_view(),
            source_json.deep_view(),
            archive_override.deep_view(),
            single_version_override.deep_view(),
        ),
{
    let mut out: Vec<BzlmodPatchConfig> = Vec::new();
    let ghost own = registry_patches(registry@, dep.deep_view(), source_json.deep_view());
    match &source_json.patches {
        Some(patches) => {
            let mut i: usize = 0;
            while i < patches.entries.len()
                invariant
                    source_json.deep_view().patches == Some(patches.deep_view()),
                    own == registry_patches(registry@, dep.deep_view(), source_json.deep_view()),
                    0 <= i <= patches.entries@.len(),
                    out.deep_view() =~= own.take(i as int),
                decreases patches.entries.len() - i,
            {
                let ghost before = out.deep_view();
                assert(patches.deep_view()[i as int] == patches.entries@[i as int].deep_view());
                let config = BzlmodPatchConfig {
                    url: registry_file_of(
                        registry,
                        dep,
                        "/patches/",
                        patches.entries[i].0.as_str(),
                    ),
                    integrity: patches.entries[i].1.clone(),
                    path: None,
                    content_sha256: None,
                    patch_strip: source_json.patch_strip,
                };
                assert(config.deep_view() == own[i as int]);
                out.push(config);
                assert(out.deep_view() =~= before.push(own[i as int]));
                i += 1;
            }
            assert(own.take(i as int) =~= own);
        },
        None => {},
    }
    assert(out.deep_view() =~= own);
    let ghost none: Seq<BzlmodPatchConfigModel> = seq![];
    assert(own + none =~= own);
    match archive_override {
        Some(o) => {
            push_root_patches(&mut out, &o.patches, o.patch_strip);
        },
        None => {},
    }
    let ghost two = out.deep_view();
    assert(two + none =~= two);
    match single_version_override {
        Some(o) => {
            push_root_patches(&mut out, &o.patches, o.patch_strip);
        },
        None => {},
    }
    out
}

/// The files that the registry lays over a module's archive.
pub open spec fn overlay_configs(
    registry: Text,
    dep: BazelDepModel,
    source: BcrSourceJsonModel,
) -> Seq<BzlmodOverlayConfigModel> {
    match source.overlay {
        Some(files) => Seq::new(
            files.len(),
            |i: int|
                BzlmodOverlayConfigModel {
                    path: files[i].0,
                    url: registry_file(registry, dep, "/overlay/"@, files[i].0),
                    integrity: files[i].1,
                },
        ),
        None => seq![],
    }
}

/// The files that the registry lays over a module's archive.
pub fn bzlmod_overlay_configs(registry: &str, dep: &BazelDep, source_json: &BcrSourceJson) -> (r:
    Vec<BzlmodOverlayConfig>)
    ensures
        r.deep_view() == overlay_configs(registry@, dep.deep_view(), source_json.deep_view()),
{
    let mut out: Vec<BzlmodOverlayConfig> = Vec::new();
    let ghost own = overlay_configs(registry@, dep.deep_view(), source_json.deep_view());
    match &source_json.overlay {
        Some(files) => {
            let mut i: usize = 0;
            while i < files.entries.len()
                invariant
                    source_json.deep_view().overlay == Some(files.deep_view()),
                    own == overlay_configs(registry@, dep.deep_view(), source_json.deep_view()),
                    0 <= i <= files.entries@.len(),
                    out.deep_view() =~= own.take(i as int),
                decreases files.entries.len() - i,
            {
                let ghost before = out.deep_view();
                assert(files.deep_view()[i as int] == files.entries@[i as int].deep_view());
                let config = BzlmodOverlayConfig {
                    path: files.entries[i].0.clone(),
                    url: registry_file_of(registry, dep, "/overlay/", files.entries[i].0.as_str()),
                    integrity: files.entries[i].1.clone(),
                };
                assert(config.deep_view() == own[i as int]);
                out.push(config);
                assert(out.deep_view() =~= before.push(own[i as int]));
                i += 1;
            }
            assert(own.take(i as int) =~= own);
        },
        None => {},
    }
    assert(out.deep_view() =~= own);
    out
}

/// The toolchain patterns from `i` on of one module, with their cells.
pub open spec fn qualified_toolchains(
    patterns: Seq<Text>,
    i: int,
    cell: Text,
    aliases: CellAliases,
    done: Seq<Text>,
) -> Result<Seq<Text>, Text>
    decreases patterns.len() - i,
{
    if i < 0 || i >= patterns.len() {
        Ok(done)
    } else {
        match qualified_toolchain(patterns[i], cell, aliases) {
            Err(message) => Err(message),
            Ok(pattern) => qualified_toolchains(
                patterns,
                i + 1,
                cell,
                aliases,
                done.push(pattern),
            ),
        }
    }
}

/// The toolchain patterns of the modules from `i` on.
pub open spec fn modules_toolchains(
    keys: Seq<ModuleKey>,
    i: int,
    discovered: Discovered,
    names: Seq<(ModuleKey, Text)>,
    aliases: CellAliases,
    done: Seq<Text>,
) -> Result<Seq<Text>, Text>
    decreases keys.len() - i,
{
    if i < 0 || i >= keys.len() {
        Ok(done)
    } else {
        match lookup(discovered, keys[i]) {
            None => modules_toolchains(keys, i + 1, discovered, names, aliases, done),
            Some(module) => match selected_name(names, module.dep.name, module.dep.version) {
                Err(message) => Err(message),
                Ok(canonical) => match qualified_toolchains(
                    module.registered_toolchains,
                    0,
                    cell_name_of(canonical),
                    aliases,
                    done,
                ) {
                    Err(message) => Err(message),
                    Ok(next) => modules_toolchains(
                        keys,
                        i + 1,
                        discovered,
                        names,
                        aliases,
                        next,
                    ),
                },
            },
        }
    }
}

/// The toolchains that the root and the modules register, the root's first, each
/// once.
pub open spec fn graph_toolchains(
    root: RootBzlmodModuleModel,
    discovered: Discovered,
    keys: Seq<ModuleKey>,
    names: Seq<(ModuleKey, Text)>,
    aliases: CellAliases,
) -> Result<Seq<Text>, Text> {
    match qualified_toolchains(root.registered_toolchains, 0, "root"@, aliases, seq![]) {
        Err(message) => Err(message),
        Ok(own) => match modules_toolchains(keys, 0, discovered, names, aliases, own) {
            Err(message) => Err(message),
            Ok(all) => Ok(dedup(all)),
        },
    }
}

fn push_qualified_toolchains(
    out: &mut Vec<String>,
    patterns: &Vec<String>,
    cell: &str,
    aliases: &KeyMap<String, KeyMap<String, String>>,
) -> (r: Result<(), InputError>)
    ensures
        match qualified_toolchains(
            patterns.deep_view(),
            0,
            cell@,
            aliases.deep_view(),
            old(out).deep_view(),
        ) {
            Ok(next) => r is Ok && final(out).deep_view() == next,
            Err(message) => r matches Err(e) && e.deep_view() == message,
        },
{
    let ghost model = patterns.deep_view();
    let ghost first = out.deep_view();
    let mut i: usize = 0;
    while i < patterns.len()
        invariant
            first == old(out).deep_view(),
            model == patterns.deep_view(),
            0 <= i <= patterns@.len(),
            qualified_toolchains(model, 0, cell@, aliases.deep_view(), first)
                == qualified_toolchains(
                model,
                i as int,
                cell@,
                aliases.deep_view(),
                out.deep_view(),
            ),
        decreases patterns.len() - i,
    {
        assert(model[i as int] == patterns@[i as int]@);
        let ghost before = out.deep_view();
        match qualify_bzlmod_registered_toolchain(patterns[i].as_str(), cell, aliases) {
            Ok(pattern) => {
                let ghost g = pattern@;
                out.push(pattern);
                assert(out.deep_view() =~= before.push(g));
            },
            Err(e) => {
                return Err(e);
            },
        }
        i += 1;
    }
    Ok(())
}

/// The toolchains that the root and the modules register.
pub fn resolve_bzlmod_registered_toolchains(
    root_module: &RootBzlmodModule,
    discovered: &KeyMap<(String, String), DiscoveredBcrModule>,
    selected_keys: &Vec<(String, String)>,
    canonical_repo_names_by_key: &KeyMap<(String, String), String>,
    cell_aliases_by_cell: &KeyMap<String, KeyMap<String, String>>,
) -> (r: Result<Vec<String>, InputError>)
    ensures
        result_view(r) == graph_toolchains(
            root_module.deep_view(),
            discovered.deep_view(),
            selected_keys.deep_view(),
            canonical_repo_names_by_key.deep_view(),
            cell_aliases_by_cell.deep_view(),
        ),
{
    let mut out: Vec<String> = Vec::new();
    assert(out.deep_view() =~= seq![]);
    match push_qualified_toolchains(
        &mut out,
        &root_module.registered_toolchains,
        "root",
        cell_aliases_by_cell,
    ) {
        Ok(_) => {},
        Err(e) => {
            return Err(e);
        },
    }
    let ghost model = selected_keys.deep_view();
    let ghost whole = graph_toolchains(
        root_module.deep_view(),
        discovered.deep_view(),
        model,
        canonical_repo_names_by_key.deep_view(),
        cell_aliases_by_cell.deep_view(),
    );
    let mut i: usize = 0;
    while i < selected_keys.len()
        invariant
            model == selected_keys.deep_view(),
            whole == graph_toolchains(
                root_module.deep_view(),
                discovered.deep_view(),
                model,
                canonical_repo_names_by_key.deep_view(),
                cell_aliases_by_cell.deep_view(),
            ),
            whole == (match modules_toolchains(
                model,
                i as int,
                discovered.deep_view(),
                canonical_repo_names_by_key.deep_view(),
                cell_aliases_by_cell.deep_view(),
                out.deep_view(),
            ) {
                Err(message) => Err(message),
                Ok(all) => Ok(dedup(all)),
            }),
            0 <= i <= selected_keys@.len(),
        decreases selected_keys.len() - i,
    {
        assert(model[i as int] == selected_keys@[i as int].deep_view());
        match discovered.get(&selected_keys[i]) {
            None => {},
            Some(module) => {
                let canonical = match bzlmod_selected_canonical_repo_name(
                    canonical_repo_names_by_key,
                    module.dep.name.as_str(),
                    module.dep.version.as_str(),
                ) {
                    Ok(canonical) => canonical,
                    Err(e) => {
                        return Err(e);
                    },
                };
                let cell = bzlmod_cell_name(canonical.as_str());
                match push_qualified_toolchains(
                    &mut out,
                    &module.registered_toolchains,
                    cell.as_str(),
                    cell_aliases_by_cell,
                ) {
                    Ok(_) => {},
                    Err(e) => {
                        return Err(e);
                    },
                }
            },
        }
        i += 1;
    }
    dedup_preserve_order(&mut out);
    Ok(out)
}

/// How many directories to strip: what the overrides say, then the registry.
pub open spec fn module_patch_strip(
    source: BcrSourceJsonModel,
    archive: Option<BzlmodArchiveOverrideModel>,
    version: Option<BzlmodSingleVersionOverrideModel>,
) -> u32 {
    match archive {
        Some(BzlmodArchiveOverrideModel { patch_strip: Some(n), .. }) => n,
        _ => match version {
            Some(BzlmodSingleVersionOverrideModel { patch_strip: Some(n), .. }) => n,
            _ => match source.patch_strip {
                Some(n) => n,
                None => 0,
            },
        },
    }
}

fn module_patch_strip_of(
    source: &BcrSourceJson,
    archive: Option<&BzlmodArchiveOverride>,
    version: Option<&BzlmodSingleVersionOverride>,
) -> (r: u32)
    ensures
        r == module_patch_strip(source.deep_view(), archive.deep_view(), version.deep_view()),
{
    match archive {
        Some(o) => match o.patch_strip {
            Some(n) => {
                return n;
            },
            None => {},
        },
        None => {},
    }
    match version {
        Some(o) => match o.patch_strip {
            Some(n) => {
                return n;
            },
            None => {},
        },
        None => {},
    }
    match source.patch_strip {
        Some(n) => n,
        None => 0,
    }
}

/// The overrides of the root module.
pub struct Overrides {
    pub archives: Seq<(Text, BzlmodArchiveOverrideModel)>,
    pub versions: Seq<(Text, BzlmodSingleVersionOverrideModel)>,
    pub local_paths: Seq<(Text, BzlmodLocalPathOverrideModel)>,
}

/// A selected module as a cell.
pub open spec fn registry_module(
    registry: Text,
    module: DiscoveredBcrModuleModel,
    canonical: Text,
    aliases: Seq<Text>,
    overrides: Overrides,
) -> ResolvedRegistryModuleModel {
    let name = module.dep.name;
    let archive = lookup(overrides.archives, name);
    let version = lookup(overrides.versions, name);
    ResolvedRegistryModuleModel {
        cell_name: cell_name_of(canonical),
        aliases,
        module_name: name,
        version: module.dep.version,
        canonical_repo_name: canonical,
        local_path: match lookup(overrides.local_paths, name) {
            Some(o) => Some(o.path),
            None => None,
        },
        url: module.source_json.url,
        urls_json: json_array(source_urls(module.source_json)),
        integrity: module.source_json.integrity,
        strip_prefix: module.source_json.strip_prefix,
        archive_type: module.source_json.archive_type,
        patches: patch_configs(registry, module.dep, module.source_json, archive, version),
        overlays: overlay_configs(registry, module.dep, module.source_json),
        patch_strip: module_patch_strip(module.source_json, archive, version),
    }
}

/// The selected modules from `i` on as cells, by cell name; the built-in tools
/// are none.
pub open spec fn registry_modules(
    registry: Text,
    keys: Seq<ModuleKey>,
    i: int,
    discovered: Discovered,
    names: Seq<(ModuleKey, Text)>,
    by_key: Seq<(ModuleKey, Seq<Text>)>,
    overrides: Overrides,
    done: Seq<(Text, ResolvedExternalModuleModel)>,
) -> Result<Seq<(Text, ResolvedExternalModuleModel)>, Text>
    decreases keys.len() - i,
{
    if i < 0 || i >= keys.len() {
        Ok(done)
    } else {
        match lookup(discovered, keys[i]) {
            None => registry_modules(
                registry,
                keys,
                i + 1,
                discovered,
                names,
                by_key,
                overrides,
                done,
            ),
            Some(module) => match selected_name(names, module.dep.name, module.dep.version) {
                Err(message) => Err(message),
                Ok(canonical) => {
                    let aliases = match lookup(by_key, keys[i]) {
                        Some(own) => sorted_set_of::<String>(own),
                        None => seq![],
                    };
                    let next = if module.dep.name == "bazel_tools"@ {
                        done
                    } else {
                        put::<String, ResolvedExternalModuleModel>(
                            done,
                            cell_name_of(canonical),
                            ResolvedExternalModuleModel::Registry(
                                registry_module(registry, module, canonical, aliases, overrides),
                            ),
                        )
                    };
                    registry_modules(
                        registry,
                        keys,
                        i + 1,
                        discovered,
                        names,
                        by_key,
                        overrides,
                        next,
                    )
                },
            },
        }
    }
}

fn urls_json_of(source: &BcrSourceJson) -> (r: String)
    ensures
        r@ == json_array(source_urls(source.deep_view())),
{
    match json_strings(&bcr_source_urls(source)) {
        Ok(json) => json,
        Err(_) => String::new(),
    }
}

fn registry_module_of(
    registry: &str,
    module: &DiscoveredBcrModule,
    canonical: String,
    aliases: Vec<String>,
    archives: &KeyMap<String, BzlmodArchiveOverride>,
    versions: &KeyMap<String, BzlmodSingleVersionOverride>,
    local_paths: &KeyMap<String, BzlmodLocalPathOverride>,
) -> (r: ResolvedRegistryModule)
    ensures
        r.deep_view() == registry_module(
            registry@,
            module.deep_view(),
            canonical@,
            aliases.deep_view(),
            (Overrides {
                archives: archives.deep_view(),
                versions: versions.deep_view(),
                local_paths: local_paths.deep_view(),
            }),
        ),
{
    let name = &module.dep.name;
    let archive = archives.get(name);
    let version = versions.get(name);
    let local_path = match local_paths.get(name) {
        Some(o) => Some(o.path.clone()),
        None => None,
    };
    ResolvedRegistryModule {
        cell_name: bzlmod_cell_name(canonical.as_str()),
        aliases,
        module_name: module.dep.name.clone(),
        version: module.dep.version.clone(),
        canonical_repo_name: canonical,
        local_path,
        url: module.source_json.url.clone(),
        urls_json: urls_json_of(&module.source_json),
        integrity: module.source_json.integrity.clone(),
        strip_prefix: module.source_json.strip_prefix.duplicate(),
        archive_type: module.source_json.archive_type.duplicate(),
        patches: bzlmod_patch_configs(
            registry,
            &module.dep,
            &module.source_json,
            archive,
            version,
        ),
        overlays: bzlmod_overlay_configs(registry, &module.dep, &module.source_json),
        patch_strip: module_patch_strip_of(&module.source_json, archive, version),
    }
}

fn resolve_registry_modules(
    registry: &str,
    dep_graph: &BzlmodDepGraph,
    archives: &KeyMap<String, BzlmodArchiveOverride>,
    versions: &KeyMap<String, BzlmodSingleVersionOverride>,
    local_paths: &KeyMap<String, BzlmodLocalPathOverride>,
) -> (r: Result<KeyMap<String, ResolvedExternalModule>, InputError>)
    ensures
        result_view(r) == registry_modules(
            registry@,
            dep_graph.deep_view().selected_keys,
            0,
            dep_graph.deep_view().discovered,
            dep_graph.deep_view().canonical_repo_names_by_key,
            dep_graph.deep_view().root_aliases_by_key,
            (Overrides {
                archives: archives.deep_view(),
                versions: versions.deep_view(),
                local_paths: local_paths.deep_view(),
            }),
            seq![],
        ),
{
    let ghost overrides = Overrides {
        archives: archives.deep_view(),
        versions: versions.deep_view(),
        local_paths: local_paths.deep_view(),
    };
    let ghost g = dep_graph.deep_view();
    let keys = &dep_graph.selected_keys.items;
    let mut out: KeyMap<String, ResolvedExternalModule> = KeyMap::new();
    let mut i: usize = 0;
    assert(out.deep_view() =~= seq![]);
    while i < keys.len()
        invariant
            g == dep_graph.deep_view(),
            overrides == (Overrides {
                archives: archives.deep_view(),
                versions: versions.deep_view(),
                local_paths: local_paths.deep_view(),
            }),
            g.selected_keys == keys.deep_view(),
            0 <= i <= keys@.len(),
            registry_modules(
                registry@,
                g.selected_keys,
                0,
                g.discovered,
                g.canonical_repo_names_by_key,
                g.root_aliases_by_key,
                overrides,
                seq![],
            ) == registry_modules(
                registry@,
                g.selected_keys,
                i as int,
                g.discovered,
                g.canonical_repo_names_by_key,
                g.root_aliases_by_key,
                overrides,
                out.deep_view(),
            ),
        decreases keys.len() - i,
    {
        assert(g.selected_keys[i as int] == keys@[i as int].deep_view());
        match dep_graph.discovered.get(&keys[i]) {
            None => {},
            Some(module) => {
                let aliases = match dep_graph.root_aliases_by_key.get(&keys[i]) {
                    Some(own) => sort_and_dedup(&own.items),
                    None => {
                        let none: Vec<String> = Vec::new();
                        assert(none.deep_view() =~= seq![]);
                        none
                    },
                };
                let canonical = match bzlmod_selected_canonical_repo_name(
                    &dep_graph.canonical_repo_names_by_key,
                    module.dep.name.as_str(),
                    module.dep.version.as_str(),
                ) {
                    Ok(canonical) => canonical,
                    Err(e) => {
                        return Err(e);
                    },
                };
                if !same(module.dep.name.as_str(), "bazel_tools") {
                    let resolved = registry_module_of(
                        registry,
                        module,
                        canonical,
                        aliases,
                        archives,
                        versions,
                        local_paths,
                    );
                    out.insert(
                        resolved.cell_name.clone(),
                        ResolvedExternalModule::Registry(resolved),
                    );
                }
            },
        }
        i += 1;
    }
    Ok(out)
}

/// The aliases of a cell as a list.
pub open spec fn alias_list(aliases: Seq<(Text, Text)>) -> Seq<BazelCompatCellAliasModel> {
    Seq::new(
        aliases.len(),
        |i: int| BazelCompatCellAliasModel { alias: aliases[i].0, cell_name: aliases[i].1 },
    )
}

/// The aliases of a cell as a list.
pub fn bzlmod_cell_alias_map_to_vec(aliases: &KeyMap<String, String>) -> (r: Vec<
    BazelCompatCellAlias,
>)
    ensures
        r.deep_view() == alias_list(aliases.deep_view()),
{
    let ghost model = alias_list(aliases.deep_view());
    let mut out: Vec<BazelCompatCellAlias> = Vec::new();
    let mut i: usize = 0;
    while i < aliases.entries.len()
        invariant
            model == alias_list(aliases.deep_view()),
            0 <= i <= aliases.entries@.len(),
            out.deep_view() =~= model.take(i as int),
        decreases aliases.entries.len() - i,
    {
        let ghost before = out.deep_view();
        assert(aliases.deep_view()[i as int] == aliases.entries@[i as int].deep_view());
        out.push(
            BazelCompatCellAlias {
                alias: aliases.entries[i].0.clone(),
                cell_name: aliases.entries[i].1.clone(),
            },
        );
        assert(out.deep_view() =~= before.push(model[i as int]));
        i += 1;
    }
    assert(model.take(i as int) =~= model);
    out
}

/// The aliases of the cells among the first `i`, the root apart.
pub open spec fn other_cell_aliases(aliases: CellAliases, i: int) -> Seq<
    (Text, Seq<BazelCompatCellAliasModel>),
>
    decreases i,
{
    if i <= 0 {
        seq![]
    } else {
        let before = other_cell_aliases(aliases, i - 1);
        if aliases[i - 1].0 == "root"@ {
            before
        } else {
            put::<String, Seq<BazelCompatCellAliasModel>>(
                before,
                aliases[i - 1].0,
                alias_list(aliases[i - 1].1),
            )
        }
    }
}

fn other_cell_aliases_of(aliases: &KeyMap<String, KeyMap<String, String>>) -> (r: KeyMap<
    String,
    Vec<BazelCompatCellAlias>,
>)
    ensures
        r.deep_view() == other_cell_aliases(
            aliases.deep_view(),
            aliases.deep_view().len() as int,
        ),
{
    let ghost model = aliases.deep_view();
    let mut out: KeyMap<String, Vec<BazelCompatCellAlias>> = KeyMap::new();
    let mut i: usize = 0;
    while i < aliases.entries.len()
        invariant
            model == aliases.deep_view(),
            0 <= i <= aliases.entries@.len(),
            out.deep_view() =~= other_cell_aliases(model, i as int),
        decreases aliases.entries.len() - i,
    {
        assert(model[i as int] == aliases.entries@[i as int].deep_view());
        if !same(aliases.entries[i].0.as_str(), "root") {
            out.insert(
                aliases.entries[i].0.clone(),
                bzlmod_cell_alias_map_to_vec(&aliases.entries[i].1),
            );
        }
        i += 1;
    }
    out
}

/// The values of the entries.
pub open spec fn map_values<K, V>(items: Seq<(K, V)>) -> Seq<V> {
    Seq::new(items.len(), |i: int| items[i].1)
}

fn module_values(modules: &KeyMap<String, ResolvedExternalModule>) -> (r: Vec<
    ResolvedExternalModule,
>)
    ensures
        r.deep_view() == map_values(modules.deep_view()),
{
    let ghost model = map_values(modules.deep_view());
    let mut out: Vec<ResolvedExternalModule> = Vec::new();
    let mut i: usize = 0;
    while i < modules.entries.len()
        invariant
            model == map_values(modules.deep_view()),
            0 <= i <= modules.entries@.len(),
            out.deep_view() =~= model.take(i as int),
        decreases modules.entries.len() - i,
    {
        let ghost before = out.deep_view();
        assert(modules.deep_view()[i as int] == modules.entries@[i as int].deep_view());
        out.push(modules.entries[i].1.duplicate());
        assert(out.deep_view() =~= before.push(model[i as int]));
        i += 1;
    }
    assert(model.take(i as int) =~= model);
    out
}

/// What a graph resolves to: the selected modules by cell name, then the
/// generated repositories; the aliases of each cell; and the toolchains.
pub open spec fn resolution(
    registry: Text,
    graph: BzlmodDepGraphModel,
    overrides: Overrides,
    jsons: Seq<(BzlmodExtensionIdModel, Text)>,
) -> Result<BcrResolutionModel, Text> {
    match registry_modules(
        registry,
        graph.selected_keys,
        0,
        graph.discovered,
        graph.canonical_repo_names_by_key,
        graph.root_aliases_by_key,
        overrides,
        seq![],
    ) {
        Err(message) => Err(message),
        Ok(own) => match generated_repos(
            graph.root_module,
            graph.discovered,
            graph.selected_keys_in_dependency_order,
            graph.canonical_repo_names_by_key,
            graph.cell_aliases_by_cell,
            graph.canonical_repo_names_by_cell,
            graph.extension_unique_names,
            jsons,
        ) {
            Err(message) => Err(message),
            Ok((generated, aliases)) => match graph_toolchains(
                graph.root_module,
                graph.discovered,
                graph.selected_keys_in_bfs_order,
                graph.canonical_repo_names_by_key,
                aliases,
            ) {
                Err(message) => Err(message),
                Ok(registered_toolchains) => Ok(
                    BcrResolutionModel {
                        external_modules: map_values(own) + generated,
                        root_aliases: alias_list(aliases_in(aliases, "root"@)),
                        cell_aliases: other_cell_aliases(aliases, aliases.len() as int),
                        registered_toolchains,
                    },
                ),
            },
        },
    }
}

/// Resolves a graph to cells, aliases and toolchains.
pub fn resolve_bcr_modules_from_dep_graph(
    registry: &str,
    dep_graph: &BzlmodDepGraph,
    archive_overrides: &KeyMap<String, BzlmodArchiveOverride>,
    single_version_overrides: &KeyMap<String, BzlmodSingleVersionOverride>,
    local_path_overrides: &KeyMap<String, BzlmodLocalPathOverride>,
    extension_usages_json_by_id: &KeyMap<BzlmodExtensionId, String>,
) -> (r: Result<BcrResolution, InputError>)
    ensures
        result_view(r) == resolution(
            registry@,
            dep_graph.deep_view(),
            (Overrides {
                archives: archive_overrides.deep_view(),
                versions: single_version_overrides.deep_view(),
                local_paths: local_path_overrides.deep_view(),
            }),
            extension_usages_json_by_id.deep_view(),
        ),
{
    let own = match resolve_registry_modules(
        registry,
        dep_graph,
        archive_overrides,
        single_version_overrides,
        local_path_overrides,
    ) {
        Ok(own) => own,
        Err(e) => {
            return Err(e);
        },
    };
    let mut external_modules = module_values(&own);
    let (mut generated, aliases) = match resolve_generated_bzlmod_repos(
        &dep_graph.root_module,
        &dep_graph.discovered,
        &dep_graph.selected_keys_in_dependency_order,
        &dep_graph.canonical_repo_names_by_key,
        &dep_graph.cell_aliases_by_cell,
        &dep_graph.canonical_repo_names_by_cell,
        &dep_graph.extension_unique_names,
        extension_usages_json_by_id,
    ) {
        Ok(found) => found,
        Err(e) => {
            return Err(e);
        },
    };
    let ghost a = external_modules.deep_view();
    let ghost b = generated.deep_view();
    external_modules.append(&mut generated);
    assert(external_modules.deep_view() =~= a + b);
    let registered_toolchains = match resolve_bzlmod_registered_toolchains(
        &dep_graph.root_module,
        &dep_graph.discovered,
        &dep_graph.selected_keys_in_bfs_order,
        &dep_graph.canonical_repo_names_by_key,
        &aliases,
    ) {
        Ok(toolchains) => toolchains,
        Err(e) => {
            return Err(e);
        },
    };
    let root_aliases = match aliases.get(&"root".to_owned()) {
        Some(own) => bzlmod_cell_alias_map_to_vec(own),
        None => {
            let none: Vec<BazelCompatCellAlias> = Vec::new();
            none
        },
    };
    assert(root_aliases.deep_view() =~= alias_list(aliases_in(aliases.deep_view(), "root"@)));
    let cell_aliases = other_cell_aliases_of(&aliases);
    Ok(BcrResolution { external_modules, root_aliases, cell_aliases, registered_toolchains })
}

/// The patches of a module come in this order: those of the registry, from its address for
/// the module and the version, then those of the archive that replaces the module, then
/// those that its version is set with; each of the root's with the content that it has.
pub proof fn law_patches_in_order(
    registry: Text,
    dep: BazelDepModel,
    source: BcrSourceJsonModel,
    archive: Option<BzlmodArchiveOverrideModel>,
    version: Option<BzlmodSingleVersionOverrideModel>,
)
    ensures
        ({
            let all = patch_configs(registry, dep, source, archive, version);
            let own = match source.patches {
                Some(patches) => patches,
                None => seq![],
            };
            let of_archive = match archive {
                Some(o) => o.patches,
                None => seq![],
            };
            let of_version = match version {
                Some(o) => o.patches,
                None => seq![],
            };
            &&& all.len() == own.len() + of_archive.len() + of_version.len()
            &&& forall|i: int|
                0 <= i < own.len() ==> (#[trigger] all[i]).url == registry + "/modules/"@ + dep.name
                    + "/"@ + dep.version + "/patches/"@ + own[i].0 && all[i].integrity == own[i].1
                    && all[i].path is None && all[i].patch_strip == source.patch_strip
            &&& forall|i: int|
                0 <= i < of_archive.len() ==> (#[trigger] all[own.len() + i]).path == Some(
                    of_archive[i].path,
                ) && all[own.len() + i].patch_strip == archive->0.patch_strip
            &&& forall|i: int|
                0 <= i < of_version.len() ==> (#[trigger] all[own.len() + of_archive.len()
                    + i]).path == Some(of_version[i].path) && all[own.len() + of_archive.len()
                    + i].patch_strip == version->0.patch_strip
        }),
{
    let all = patch_configs(registry, dep, source, archive, version);
    let own = match source.patches {
        Some(patches) => patches,
        None => seq![],
    };
    let a = registry_patches(registry, dep, source);
    assert forall|i: int| 0 <= i < own.len() implies (#[trigger] all[i]).url == registry
        + "/modules/"@ + dep.name + "/"@ + dep.version + "/patches/"@ + own[i].0 && all[i].integrity
        == own[i].1 && all[i].path is None && all[i].patch_strip == source.patch_strip by {
        assert(all[i] == a[i]);
    }
}

/// How many directories a patch strips is said by the archive that replaces the module,
/// else by what its version is set with, else by the registry, and is none else.
pub proof fn law_patch_strip(
    source: BcrSourceJsonModel,
    archive: Option<BzlmodArchiveOverrideModel>,
    version: Option<BzlmodSingleVersionOverrideModel>,
)
    ensures
        ({
            let n = module_patch_strip(source, archive, version);
            let by_archive = archive is Some && archive->0.patch_strip is Some;
            let by_version = version is Some && version->0.patch_strip is Some;
            &&& by_archive ==> n == archive->0.patch_strip->0
            &&& !by_archive && by_version ==> n == version->0.patch_strip->0
            &&& !by_archive && !by_version && source.patch_strip is Some ==> n
                == source.patch_strip->0
            &&& !by_archive && !by_version && source.patch_strip is None ==> n == 0
        }),
{
}

/// A module's cell is made of what its module file and its source say: a list of addresses
/// where there is one, and else the one; a directory only where one replaces the module.
pub proof fn law_registry_module(
    registry: Text,
    module: DiscoveredBcrModuleModel,
    canonical: Text,
    aliases: Seq<Text>,
    overrides: Overrides,
)
    ensures
        ({
            let cell = registry_module(registry, module, canonical, aliases, overrides);
            &&& cell.module_name == module.dep.name && cell.version == module.dep.version
            &&& cell.canonical_repo_name == canonical && cell.aliases == aliases
            &&& cell.cell_name == cell_name_of(canonical)
            &&& cell.url == module.source_json.url
            &&& cell.integrity == module.source_json.integrity
            &&& cell.strip_prefix == module.source_json.strip_prefix
            &&& cell.archive_type == module.source_json.archive_type
            &&& cell.local_path is Some <==> lookup(overrides.local_paths, module.dep.name) is Some
            &&& cell.local_path is Some ==> cell.local_path->0 == lookup(
                overrides.local_paths,
                module.dep.name,
            )->0.path
            &&& module.source_json.urls is Some && module.source_json.urls->0.len() > 0
                ==> source_urls(module.source_json) == module.source_json.urls->0
            &&& module.source_json.urls is None ==> source_urls(module.source_json) == seq![
                module.source_json.url,
            ]
        }),
{
}

proof fn lemma_qualified(
    patterns: Seq<Text>,
    i: int,
    cell: Text,
    aliases: CellAliases,
    done: Seq<Text>,
)
    requires
        0 <= i <= patterns.len(),
    ensures
        qualified_toolchains(patterns, i, cell, aliases, done) matches Ok(out) ==> {
            &&& out.len() == done.len() + patterns.len() - i
            &&& forall|j: int| 0 <= j < done.len() ==> #[trigger] out[j] == done[j]
            &&& forall|j: int|
                i <= j < patterns.len() ==> qualified_toolchain(#[trigger] patterns[j], cell, aliases)
                    == Ok::<Text, Text>(out[done.len() + j - i])
        },
    decreases patterns.len() - i,
{
    if i < patterns.len() {
        if let Ok(pattern) = qualified_toolchain(patterns[i], cell, aliases) {
            let next = done.push(pattern);
            lemma_qualified(patterns, i + 1, cell, aliases, next);
            if let Ok(out) = qualified_toolchains(patterns, i, cell, aliases, done) {
                assert(out[done.len() as int] == next[done.len() as int]);
                assert forall|j: int| 0 <= j < done.len() implies #[trigger] out[j] == done[j] by {
                    assert(out[j] == next[j]);
                }
                assert forall|j: int| i <= j < patterns.len() implies qualified_toolchain(
                    #[trigger] patterns[j],
                    cell,
                    aliases,
                ) == Ok::<Text, Text>(out[done.len() + j - i]) by {
                    if j > i {
                        assert(next.len() + j - (i + 1) == done.len() + j - i);
                    }
                }
            }
        }
    }
}

proof fn lemma_modules_behind(
    keys: Seq<ModuleKey>,
    i: int,
    discovered: Discovered,
    names: Seq<(ModuleKey, Text)>,
    aliases: CellAliases,
    done: Seq<Text>,
)
    requires
        0 <= i <= keys.len(),
    ensures
        modules_toolchains(keys, i, discovered, names, aliases, done) matches Ok(out) ==> {
            &&& done.len() <= out.len()
            &&& forall|j: int| 0 <= j < done.len() ==> #[trigger] out[j] == done[j]
            &&& forall|k: int, p: int|
                i <= k < keys.len() && lookup(discovered, keys[k]) is Some && 0 <= p < lookup(
                    discovered,
                    keys[k],
                )->0.registered_toolchains.len() ==> {
                    let module = lookup(discovered, keys[k])->0;
                    let cell = cell_name_of(
                        lookup(names, (module.dep.name, module.dep.version))->0,
                    );
                    qualified_toolchain(
                        #[trigger] lookup(discovered, keys[k])->0.registered_toolchains[p],
                        cell,
                        aliases,
                    ) matches Ok(pattern) && out.contains(pattern)
                }
        },
    decreases keys.len() - i,
{
    if i < keys.len() {
        match lookup(discovered, keys[i]) {
            None => lemma_modules_behind(keys, i + 1, discovered, names, aliases, done),
            Some(module) => {
                if let Ok(canonical) = selected_name(names, module.dep.name, module.dep.version) {
                    let cell = cell_name_of(canonical);
                    let patterns = module.registered_toolchains;
                    lemma_qualified(patterns, 0, cell, aliases, done);
                    if let Ok(next) = qualified_toolchains(patterns, 0, cell, aliases, done) {
                        lemma_modules_behind(keys, i + 1, discovered, names, aliases, next);
                        if let Ok(out) = modules_toolchains(
                            keys,
                            i,
                            discovered,
                            names,
                            aliases,
                            done,
                        ) {
                            assert forall|j: int| 0 <= j < done.len() implies #[trigger] out[j]
                                == done[j] by {
                                assert(out[j] == next[j]);
                            }
                            assert forall|p: int| 0 <= p < patterns.len() implies (
                            qualified_toolchain(#[trigger] patterns[p], cell, aliases) matches Ok(
                                pattern,
                            ) && out.contains(pattern)) by {
                                let at = done.len() + p;
                                assert(out[at] == next[at]);
                            }
                        }
                    }
                }
            },
        }
    }
}

/// The toolchains that are registered are those of the root and of every module, each with
/// its cell: the root's first one is the first of all.
pub proof fn law_toolchains_of_graph(
    root: RootBzlmodModuleModel,
    discovered: Discovered,
    keys: Seq<ModuleKey>,
    names: Seq<(ModuleKey, Text)>,
    aliases: CellAliases,
)
    ensures
        graph_toolchains(root, discovered, keys, names, aliases) matches Ok(all) ==> {
            &&& root.registered_toolchains.len() > 0 ==> all.len() > 0 && qualified_toolchain(
                root.registered_toolchains[0],
                "root"@,
                aliases,
            ) == Ok::<Text, Text>(all[0])
            &&& forall|j: int|
                0 <= j < root.registered_toolchains.len() ==> (qualified_toolchain(
                    #[trigger] root.registered_toolchains[j],
                    "root"@,
                    aliases,
                ) matches Ok(pattern) && all.contains(pattern))
            &&& forall|k: int, p: int|
                0 <= k < keys.len() && lookup(discovered, keys[k]) is Some && 0 <= p < lookup(
                    discovered,
                    keys[k],
                )->0.registered_toolchains.len() ==> {
                    let module = lookup(discovered, keys[k])->0;
                    let cell = cell_name_of(
                        lookup(names, (module.dep.name, module.dep.version))->0,
                    );
                    qualified_toolchain(
                        #[trigger] lookup(discovered, keys[k])->0.registered_toolchains[p],
                        cell,
                        aliases,
                    ) matches Ok(pattern) && all.contains(pattern)
                }
        },
{
    let patterns = root.registered_toolchains;
    lemma_qualified(patterns, 0, "root"@, aliases, seq![]);
    if let Ok(own) = qualified_toolchains(patterns, 0, "root"@, aliases, seq![]) {
        lemma_modules_behind(keys, 0, discovered, names, aliases, own);
        if let Ok(list) = modules_toolchains(keys, 0, discovered, names, aliases, own) {
            law_dedup(list);
            lemma_dedup_first(list);
            assert forall|j: int| 0 <= j < patterns.len() implies (qualified_toolchain(
                #[trigger] patterns[j],
                "root"@,
                aliases,
            ) matches Ok(pattern) && dedup(list).contains(pattern)) by {
                assert(list[j] == own[j]);
                assert(list.contains(own[j]));
            }
            if patterns.len() > 0 {
                assert(list[0] == own[0]);
            }
        }
    }
}

proof fn lemma_dedup_first(items: Seq<Text>)
    ensures
        items.len() > 0 ==> dedup(items).len() > 0 && dedup(items)[0] == items[0],
    decreases items.len(),
{
    if items.len() > 1 {
        lemma_dedup_first(items.drop_last());
    } else if items.len() == 1 {
        assert(items.drop_last() =~= seq![]);
        assert(dedup(items.drop_last()) =~= seq![]);
    }
}

} // verus!
