//! Where the files that describe a module come from.

use vstd::prelude::*;
use vstd::string::*;
use crate::digest::{hex_text, sha256};
use crate::discovery::{
    archive_source, bzlmod_archive_override_source_json, bzlmod_bcr_discovery_cache_path,
    cache_key_text, discovered_module, empty_bcr_source_json, empty_source,
    parse_discovered_bzlmod_module,
};
use crate::module::{
    BazelDep, BazelDepModel, BcrSourceJson, BzlmodArchiveOverride, BzlmodArchiveOverrideModel,
    BzlmodLocalPathOverride, BzlmodRootPatch, DiscoveredBcrModule, InputError,
};
use crate::module_inputs::BzlmodRootResolutionInput;
use crate::ordered::{lookup, result_view};
use crate::text::{Text, concat3, lines};

verus! {

pub const BZLMOD_DEFAULT_REGISTRY: &'static str = "https://bcr.bazel.build";

/// Where a file of a module lies in a registry.
pub open spec fn registry_url(registry: Text, dep: BazelDepModel, file: Text) -> Text {
    registry + "/modules/"@ + dep.name + "/"@ + dep.version + "/"@ + file
}

/// Where a file of a module is kept once it was fetched.
pub open spec fn cached_path(registry: Text, dep: BazelDepModel, file: Text) -> Text {
    "buck-out/v2/cache/bzlmod_bcr_discovery/"@ + hex_text(
        sha256(cache_key_text(registry, dep, file)),
    ) + "/"@ + file
}

/// Where a file of a module lies in a registry.
pub fn bzlmod_registry_url(registry: &str, dep: &BazelDep, file: &str) -> (r: String)
    ensures
        r@ == registry_url(registry@, dep.deep_view(), file@),
{
    let mut url = concat3(registry, "/modules/", dep.name.as_str());
    url.append("/");
    url.append(dep.version.as_str());
    url.append("/");
    url.append(file);
    url
}

/// Where the module file of a module comes from: a directory, an archive, or a
/// registry, by its address and by the place where it is kept.
pub enum ModuleFileSource<'a> {
    Local(&'a BzlmodLocalPathOverride),
    Archive(&'a BzlmodArchiveOverride),
    Registry { url: String, cache_path: String },
}

/// Where the module file of a module comes from: a directory comes before an
/// archive, and that before the registry.
pub fn bzlmod_module_file_source<'a>(
    root: &'a BzlmodRootResolutionInput,
    registry: &str,
    dep: &BazelDep,
) -> (r: ModuleFileSource<'a>)
    ensures
        match (
            lookup(root.deep_view().local_path_overrides, dep.name@),
            lookup(root.deep_view().archive_overrides, dep.name@),
        ) {
            (Some(local), _) => r matches ModuleFileSource::Local(o) && o.deep_view() == local,
            (None, Some(archive)) => r matches ModuleFileSource::Archive(o) && o.deep_view()
                == archive,
            (None, None) => r matches ModuleFileSource::Registry { url, cache_path } && url@
                == registry_url(registry@, dep.deep_view(), "MODULE.bazel"@) && cache_path@
                == cached_path(registry@, dep.deep_view(), "MODULE.bazel"@),
        },
{
    match root.local_path_overrides.get(&dep.name) {
        Some(local) => {
            return ModuleFileSource::Local(local);
        },
        None => {},
    }
    match root.archive_overrides.get(&dep.name) {
        Some(archive) => {
            return ModuleFileSource::Archive(archive);
        },
        None => {},
    }
    ModuleFileSource::Registry {
        url: bzlmod_registry_url(registry, dep, "MODULE.bazel"),
        cache_path: bzlmod_bcr_discovery_cache_path(registry, dep, "MODULE.bazel"),
    }
}

/// Where the description of a module's source comes from: it is known, or it has
/// to be fetched from a registry.
pub enum SourceJsonSource {
    Known(BcrSourceJson),
    Registry { url: String, cache_path: String },
}

/// Where the description of a module's source comes from: a directory has none
/// to describe, and an archive describes itself.
pub fn bzlmod_source_json_source(
    root: &BzlmodRootResolutionInput,
    registry: &str,
    dep: &BazelDep,
) -> (r: SourceJsonSource)
    requires
        forall|i: int|
            0 <= i < root.deep_view().archive_overrides.len() ==> (
            #[trigger] root.deep_view().archive_overrides[i]).1.urls.len() > 0,
    ensures
        match (
            lookup(root.deep_view().local_path_overrides, dep.name@),
            lookup(root.deep_view().archive_overrides, dep.name@),
        ) {
            (Some(_), _) => r matches SourceJsonSource::Known(s) && s.deep_view()
                == empty_source(),
            (None, Some(archive)) => r matches SourceJsonSource::Known(s) && s.deep_view()
                == archive_source(archive),
            (None, None) => r matches SourceJsonSource::Registry { url, cache_path } && url@
                == registry_url(registry@, dep.deep_view(), "source.json"@) && cache_path@
                == cached_path(registry@, dep.deep_view(), "source.json"@),
        },
{
    if root.local_path_overrides.contains_key(&dep.name) {
        return SourceJsonSource::Known(empty_bcr_source_json());
    }
    match root.archive_overrides.get(&dep.name) {
        Some(archive) => {
            proof {
                lemma_override_has_url(root.deep_view().archive_overrides, dep.name@);
            }
            return SourceJsonSource::Known(bzlmod_archive_override_source_json(archive));
        },
        None => {},
    }
    SourceJsonSource::Registry {
        url: bzlmod_registry_url(registry, dep, "source.json"),
        cache_path: bzlmod_bcr_discovery_cache_path(registry, dep, "source.json"),
    }
}

proof fn lemma_override_has_url(overrides: Seq<(Text, BzlmodArchiveOverrideModel)>, name: Text)
    requires
        lookup(overrides, name) is Some,
        forall|i: int|
            0 <= i < overrides.len() ==> (#[trigger] overrides[i]).1.urls.len() > 0,
    ensures
        lookup(overrides, name)->0.urls.len() > 0,
    decreases overrides.len(),
{
    assert(overrides[0].1.urls.len() > 0);
    if overrides[0].0 != name {
        let rest = overrides.skip(1);
        assert forall|i: int| 0 <= i < rest.len() implies (#[trigger] rest[i]).1.urls.len() > 0 by {
            assert(rest[i] == overrides[i + 1]);
        }
        lemma_override_has_url(rest, name);
    }
}

/// What a fetched module file makes of a module: the source of an archive is
/// known, that of a registry's module is not yet.
pub fn bzlmod_fetched_module(
    dep: BazelDep,
    archive_override: Option<&BzlmodArchiveOverride>,
    module_text: &str,
) -> (r: Result<DiscoveredBcrModule, InputError>)
    requires
        archive_override is Some ==> archive_override->0.deep_view().urls.len() > 0,
    ensures
        result_view(r) == discovered_module(
            dep.deep_view(),
            match archive_override {
                Some(o) => archive_source(o.deep_view()),
                None => empty_source(),
            },
            dep.name@,
            lines(module_text@),
        ),
{
    let source_json = match archive_override {
        Some(o) => bzlmod_archive_override_source_json(o),
        None => empty_bcr_source_json(),
    };
    parse_discovered_bzlmod_module(dep, source_json, module_text)
}

/// The patches of a single version that a module file has to see, with how many
/// directories they strip; none where an archive replaces the module.
pub fn bzlmod_module_file_patches<'a>(
    root: &'a BzlmodRootResolutionInput,
    dep: &BazelDep,
) -> (r: Option<(&'a Vec<BzlmodRootPatch>, u32)>)
    ensures
        match (
            lookup(root.deep_view().archive_overrides, dep.name@),
            lookup(root.deep_view().single_version_overrides, dep.name@),
        ) {
            (None, Some(o)) => r matches Some((patches, strip)) && patches.deep_view() == o.patches
                && strip == (match o.patch_strip {
                Some(strip) => strip,
                None => 0,
            }),
            _ => r is None,
        },
{
    if root.archive_overrides.contains_key(&dep.name) {
        return None;
    }
    match root.single_version_overrides.get(&dep.name) {
        Some(o) => {
            let strip: u32 = match o.patch_strip {
                Some(strip) => strip,
                None => 0,
            };
            Some((&o.patches, strip))
        },
        None => None,
    }
}

/// The module file of a module comes from the directory that replaces it where there is
/// one, else from the archive that does, and only else from the registry.
pub proof fn law_module_file_source<'a>(
    root: &'a BzlmodRootResolutionInput,
    registry: &str,
    dep: BazelDep,
    source: ModuleFileSource<'a>,
)
    requires
        call_ensures(bzlmod_module_file_source, (root, registry, &dep), source),
    ensures
        source is Local <==> lookup(root.deep_view().local_path_overrides, dep.name@) is Some,
        source is Archive <==> lookup(root.deep_view().local_path_overrides, dep.name@) is None
            && lookup(root.deep_view().archive_overrides, dep.name@) is Some,
        source matches ModuleFileSource::Registry { url, .. } ==> url@ == registry@ + "/modules/"@
            + dep.name@ + "/"@ + dep.version@ + "/"@ + "MODULE.bazel"@,
{
}

/// What describes a module's source has to be fetched only where nothing replaces the
/// module; an archive that does is described by its own addresses and its own digest.
pub proof fn law_source_json_source(
    root: BzlmodRootResolutionInput,
    registry: &str,
    dep: BazelDep,
    source: SourceJsonSource,
)
    requires
        call_ensures(bzlmod_source_json_source, (&root, registry, &dep), source),
    ensures
        source is Registry <==> lookup(root.deep_view().local_path_overrides, dep.name@) is None
            && lookup(root.deep_view().archive_overrides, dep.name@) is None,
        source matches SourceJsonSource::Registry { url, .. } ==> url@ == registry@ + "/modules/"@
            + dep.name@ + "/"@ + dep.version@ + "/"@ + "source.json"@,
        lookup(root.deep_view().local_path_overrides, dep.name@) is None && lookup(
            root.deep_view().archive_overrides,
            dep.name@,
        ) is Some ==> (source matches SourceJsonSource::Known(json) && json.deep_view().integrity
            == lookup(root.deep_view().archive_overrides, dep.name@)->0.integrity
            && json.deep_view().strip_prefix == lookup(
            root.deep_view().archive_overrides,
            dep.name@,
        )->0.strip_prefix),
{
}

/// The patches that a module file has to see are those that the version of the module is
/// set with; an archive that replaces the module leaves none to see.
pub proof fn law_module_file_patches<'a>(
    root: &'a BzlmodRootResolutionInput,
    dep: BazelDep,
    patches: Option<(&'a Vec<BzlmodRootPatch>, u32)>,
)
    requires
        call_ensures(bzlmod_module_file_patches, (root, &dep), patches),
    ensures
        patches is Some <==> lookup(root.deep_view().archive_overrides, dep.name@) is None
            && lookup(root.deep_view().single_version_overrides, dep.name@) is Some,
        patches matches Some((found, strip)) ==> {
            let o = lookup(root.deep_view().single_version_overrides, dep.name@)->0;
            &&& found.deep_view() == o.patches
            &&& o.patch_strip is Some ==> strip == o.patch_strip->0
            &&& o.patch_strip is None ==> strip == 0
        },
{
}

} // verus!
