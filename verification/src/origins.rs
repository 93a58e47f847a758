//! Where the cells outside a project come from.

use vstd::prelude::*;
use vstd::string::*;
use crate::external::{
    BZLMOD_EXTERNAL_CELL_KIND, BZLMOD_GENERATED_EXTERNAL_CELL_KIND, BzlmodCellSetup,
    BzlmodCellSetupModel, BzlmodGeneratedCellGenerator, BzlmodGeneratedCellGeneratorModel,
    BzlmodGeneratedCellSetup, BzlmodGeneratedCellSetupModel, BzlmodOverlay, BzlmodOverlayModel,
    BzlmodPatch, BzlmodPatchModel, ExternalCellOrigin, ExternalCellOriginModel, GitCellSetup,
    GitCellSetupModel, GitObjectFormat, is_hex_digit, object_format,
};
use crate::json::{json_strings_from, json_strings_value};
use crate::module::{
    BzlmodOverlayConfig, BzlmodOverlayConfigModel, BzlmodPatchConfig, BzlmodPatchConfigModel,
    InputError,
};
use crate::ordered::{Duplicate, result_view};
use crate::resolved::{BazelCompatExternalModule, BazelCompatExternalModuleModel};
use crate::sections::{ConfigItems, LegacyBuckConfig, config_resolved, config_value};
use crate::text::{
    Text, char_is_ascii_digit, chars_of, concat, concat3, is_ascii_digit, same, strip_prefix,
};

verus! {

/// The number that the digits from `i` on continue.
pub open spec fn number_from(s: Text, i: int, n: int) -> Result<u32, Text>
    decreases s.len() - i,
{
    if i < 0 || i >= s.len() {
        Ok(n as u32)
    } else if !is_ascii_digit(s[i]) {
        Err("invalid digit found in string"@)
    } else {
        let next = n * 10 + (s[i] as int - '0' as int);
        if next > u32::MAX {
            Err("number too large to fit in target type"@)
        } else {
            number_from(s, i + 1, next)
        }
    }
}

/// The number that a text is: decimal digits, behind a `+` perhaps.
pub open spec fn number(s: Text) -> Result<u32, Text> {
    if s.len() == 0 {
        Err("cannot parse integer from empty string"@)
    } else if s[0] == '+' {
        if s.len() == 1 {
            Err("invalid digit found in string"@)
        } else {
            number_from(s, 1, 0)
        }
    } else {
        number_from(s, 0, 0)
    }
}

/// The number that a text is.
pub fn parse_number(s: &str) -> (r: Result<u32, InputError>)
    ensures
        result_view(r) == number(s@),
{
    let chars = chars_of(s);
    if chars.len() == 0 {
        return Err(
            InputError { message: "cannot parse integer from empty string".to_owned() },
        );
    }
    let mut i: usize = 0;
    if chars[0] == '+' {
        if chars.len() == 1 {
            return Err(InputError { message: "invalid digit found in string".to_owned() });
        }
        i = 1;
    }
    let mut n: u32 = 0;
    while i < chars.len()
        invariant
            chars@ == s@,
            0 <= i <= chars@.len(),
            number(s@) == number_from(s@, i as int, n as int),
        decreases chars.len() - i,
    {
        let c = chars[i];
        if !char_is_ascii_digit(c) {
            return Err(InputError { message: "invalid digit found in string".to_owned() });
        }
        let digit: u32 = c as u32 - '0' as u32;
        let next: u64 = n as u64 * 10 + digit as u64;
        if next > u32::MAX as u64 {
            return Err(
                InputError { message: "number too large to fit in target type".to_owned() },
            );
        }
        n = next as u32;
        i += 1;
    }
    Ok(n)
}

/// A setting that has to be there.
pub open spec fn needed(config: ConfigItems, section: Text, key: Text) -> Result<Text, Text> {
    match config_value(config, section, key) {
        Some(value) => Ok(value),
        None => Err(
            "Missing buckconfig `"@ + section + "."@ + key
                + "` for external cell configuration"@,
        ),
    }
}

fn get_needed<'a>(config: &'a LegacyBuckConfig, section: &str, key: &str) -> (r: Result<
    &'a str,
    InputError,
>)
    requires
        config_resolved(config.deep_view()),
    ensures
        result_view(r) == needed(config.deep_view(), section@, key@),
{
    match config.get(section, key) {
        Some(value) => Ok(value),
        None => {
            let name = concat3(section, ".", key);
            let message = concat3(
                "Missing buckconfig `",
                name.as_str(),
                "` for external cell configuration",
            );
            assert(message@ =~= "Missing buckconfig `"@ + section@ + "."@ + key@
                + "` for external cell configuration"@);
            Err(InputError { message })
        },
    }
}

/// What the section of a cell in a git repository says. A commit without an
/// object format has to look like a SHA-1 hash.
pub open spec fn git_origin(config: ConfigItems, section: Text) -> Result<GitCellSetupModel, Text> {
    match needed(config, section, "commit_hash"@) {
        Err(e) => Err(e),
        Ok(commit) => match git_format(config, section, commit) {
            Err(e) => Err(e),
            Ok(object_format) => match needed(config, section, "git_origin"@) {
                Err(e) => Err(e),
                Ok(git_origin) => Ok(GitCellSetupModel { git_origin, commit, object_format }),
            },
        },
    }
}

/// The configured object format, which the commit has to fit.
pub open spec fn git_format(config: ConfigItems, section: Text, commit: Text) -> Result<
    Option<GitObjectFormat>,
    Text,
> {
    match config_value(config, section, "object_format"@) {
        Some(s) => match object_format(s) {
            Err(e) => Err(e),
            Ok(format) => match format.refusal(commit) {
                Some(e) => Err(e),
                None => Ok(Some(format)),
            },
        },
        None => match GitObjectFormat::Sha1.refusal(commit) {
            Some(e) => Err(e),
            None => Ok(None),
        },
    }
}

fn git_format_of(config: &LegacyBuckConfig, section: &str, commit: &str) -> (r: Result<
    Option<GitObjectFormat>,
    InputError,
>)
    requires
        config_resolved(config.deep_view()),
    ensures
        match r {
            Ok(f) => git_format(config.deep_view(), section@, commit@)
                == Ok::<Option<GitObjectFormat>, Text>(f),
            Err(e) => git_format(config.deep_view(), section@, commit@)
                == Err::<Option<GitObjectFormat>, Text>(e.deep_view()),
        },
{
    match config.get(section, "object_format") {
        Some(s) => {
            let format = GitObjectFormat::parse(s)?;
            format.check(commit)?;
            Ok(Some(format))
        },
        None => {
            GitObjectFormat::Sha1.check(commit)?;
            Ok(None)
        },
    }
}

/// The patches, with the module's number of stripped directories where a patch
/// has none of its own.
pub open spec fn setup_patches(patches: Seq<BzlmodPatchConfigModel>, strip: u32) -> Seq<
    BzlmodPatchModel,
> {
    Seq::new(
        patches.len(),
        |i: int|
            BzlmodPatchModel {
                url: patches[i].url,
                integrity: patches[i].integrity,
                path: patches[i].path,
                content_sha256: patches[i].content_sha256,
                patch_strip: match patches[i].patch_strip {
                    Some(own) => own,
                    None => strip,
                },
            },
    )
}

/// The files that are laid over the module.
pub open spec fn setup_overlays(overlays: Seq<BzlmodOverlayConfigModel>) -> Seq<BzlmodOverlayModel> {
    Seq::new(
        overlays.len(),
        |i: int|
            BzlmodOverlayModel {
                path: overlays[i].path,
                url: overlays[i].url,
                integrity: overlays[i].integrity,
            },
    )
}

fn patches_of(patches: &Vec<BzlmodPatchConfig>, strip: u32) -> (r: Vec<BzlmodPatch>)
    ensures
        r.deep_view() == setup_patches(patches.deep_view(), strip),
{
    let ghost all = setup_patches(patches.deep_view(), strip);
    let mut out: Vec<BzlmodPatch> = Vec::new();
    let mut i: usize = 0;
    while i < patches.len()
        invariant
            all == setup_patches(patches.deep_view(), strip),
            0 <= i <= patches@.len(),
            out.deep_view() =~= all.take(i as int),
        decreases patches.len() - i,
    {
        let ghost before = out.deep_view();
        let patch = &patches[i];
        assert(patches.deep_view()[i as int] == patch.deep_view());
        out.push(
            BzlmodPatch {
                url: patch.url.clone(),
                integrity: patch.integrity.clone(),
                path: patch.path.duplicate(),
                content_sha256: patch.content_sha256.duplicate(),
                patch_strip: match patch.patch_strip {
                    Some(own) => own,
                    None => strip,
                },
            },
        );
        assert(out.deep_view() =~= before.push(all[i as int]));
        i += 1;
    }
    assert(all.take(i as int) =~= all);
    out
}

fn overlays_of(overlays: &Vec<BzlmodOverlayConfig>) -> (r: Vec<BzlmodOverlay>)
    ensures
        r.deep_view() == setup_overlays(overlays.deep_view()),
{
    let ghost all = setup_overlays(overlays.deep_view());
    let mut out: Vec<BzlmodOverlay> = Vec::new();
    let mut i: usize = 0;
    while i < overlays.len()
        invariant
            all == setup_overlays(overlays.deep_view()),
            0 <= i <= overlays@.len(),
            out.deep_view() =~= all.take(i as int),
        decreases overlays.len() - i,
    {
        let ghost before = out.deep_view();
        let overlay = &overlays[i];
        assert(overlays.deep_view()[i as int] == overlay.deep_view());
        out.push(
            BzlmodOverlay {
                path: overlay.path.clone(),
                url: overlay.url.clone(),
                integrity: overlay.integrity.clone(),
            },
        );
        assert(out.deep_view() =~= before.push(all[i as int]));
        i += 1;
    }
    assert(all.take(i as int) =~= all);
    out
}

/// What the JSON texts of a cell's configuration were read as; none where a
/// text is not what it should be.
#[derive(Debug)]
pub struct OriginJson {
    pub patches: Option<Vec<BzlmodPatchConfig>>,
    pub overlays: Option<Vec<BzlmodOverlayConfig>>,
    pub generator: Option<BzlmodGeneratedCellGenerator>,
}

/// The model of [`OriginJson`].
pub struct OriginJsonModel {
    pub patches: Option<Seq<BzlmodPatchConfigModel>>,
    pub overlays: Option<Seq<BzlmodOverlayConfigModel>>,
    pub generator: Option<BzlmodGeneratedCellGeneratorModel>,
}

impl DeepView for OriginJson {
    type V = OriginJsonModel;

    open spec fn deep_view(&self) -> OriginJsonModel {
        OriginJsonModel {
            patches: self.patches.deep_view(),
            overlays: self.overlays.deep_view(),
            generator: self.generator.deep_view(),
        }
    }
}

/// The JSON texts that a cell's section holds: its patches, its overlays and its
/// generator.
pub open spec fn json_texts(config: ConfigItems, cell: Text) -> (Option<Text>, Text, Option<Text>) {
    let section = "external_cell_"@ + cell;
    (
        config_value(config, section, "patches"@),
        match config_value(config, section, "overlays"@) {
            Some(overlays) => overlays,
            None => "[]"@,
        },
        config_value(config, section, "generator"@),
    )
}

/// The JSON texts that a cell's section holds.
pub fn external_cell_json_texts(cell: &str, config: &LegacyBuckConfig) -> (r: (
    Option<String>,
    String,
    Option<String>,
))
    requires
        config_resolved(config.deep_view()),
    ensures
        r.deep_view() == json_texts(config.deep_view(), cell@),
{
    let section = concat("external_cell_", cell);
    let section = section.as_str();
    let overlays = match config.get(section, "overlays") {
        Some(overlays) => overlays.to_owned(),
        None => "[]".to_owned(),
    };
    (owned(config.get(section, "patches")), overlays, owned(config.get(section, "generator")))
}

fn owned(text: Option<&str>) -> (r: Option<String>)
    ensures
        r.deep_view() == text.deep_view(),
{
    match text {
        Some(text) => Some(text.to_owned()),
        None => None,
    }
}

/// What the sources of a module's archive are: the listed ones, or the one.
pub open spec fn setup_urls(url: Text, listed: Option<Option<Seq<Text>>>) -> Result<Seq<Text>, Text> {
    match listed {
        None => Ok(seq![url]),
        Some(None) => Err("Invalid bzlmod URL configuration"@),
        Some(Some(urls)) => Ok(urls),
    }
}

/// What the section of a module's cell says, with its JSON read: the list of
/// sources as it was read, where there is one.
pub open spec fn module_origin(
    config: ConfigItems,
    section: Text,
    json: OriginJsonModel,
    listed: Option<Option<Seq<Text>>>,
) -> Result<BzlmodCellSetupModel, Text> {
    match needed(config, section, "patches"@) {
        Err(e) => Err(e),
        Ok(_) => if json.patches is None {
            Err("Invalid bzlmod patch configuration"@)
        } else if json.overlays is None {
            Err("Invalid bzlmod overlay configuration"@)
        } else {
            match needed(config, section, "patch_strip"@) {
                Err(e) => Err(e),
                Ok(strip) => match number(strip) {
                    Err(e) => Err(e),
                    Ok(strip) => match needed(config, section, "url"@) {
                        Err(e) => Err(e),
                        Ok(url) => match setup_urls(url, listed) {
                            Err(e) => Err(e),
                            Ok(urls) => module_setup(
                                config,
                                section,
                                url,
                                urls,
                                setup_patches(json.patches->0, strip),
                                setup_overlays(json.overlays->0),
                                strip,
                            ),
                        },
                    },
                },
            }
        },
    }
}

/// The setup of a module's cell from its section.
pub open spec fn module_setup(
    config: ConfigItems,
    section: Text,
    url: Text,
    urls: Seq<Text>,
    patches: Seq<BzlmodPatchModel>,
    overlays: Seq<BzlmodOverlayModel>,
    patch_strip: u32,
) -> Result<BzlmodCellSetupModel, Text> {
    match needed(config, section, "module_name"@) {
        Err(e) => Err(e),
        Ok(module_name) => match needed(config, section, "version"@) {
            Err(e) => Err(e),
            Ok(version) => match needed(config, section, "canonical_repo_name"@) {
                Err(e) => Err(e),
                Ok(canonical_repo_name) => match needed(config, section, "integrity"@) {
                    Err(e) => Err(e),
                    Ok(integrity) => Ok(
                        BzlmodCellSetupModel {
                            module_name,
                            version,
                            canonical_repo_name,
                            local_path: config_value(config, section, "local_path"@),
                            url,
                            urls,
                            integrity,
                            strip_prefix: config_value(config, section, "strip_prefix"@),
                            archive_type: config_value(config, section, "archive_type"@),
                            patches,
                            overlays,
                            patch_strip,
                        },
                    ),
                },
            },
        },
    }
}

/// What the section of a generated repository's cell says.
pub open spec fn generated_origin(
    config: ConfigItems,
    section: Text,
    generator: Option<BzlmodGeneratedCellGeneratorModel>,
) -> Result<BzlmodGeneratedCellSetupModel, Text> {
    match needed(config, section, "generator"@) {
        Err(e) => Err(e),
        Ok(_) => match generator {
            None => Err("Invalid generated bzlmod repo configuration"@),
            Some(generator) => match needed(config, section, "canonical_repo_name"@) {
                Err(e) => Err(e),
                Ok(canonical_repo_name) => Ok(
                    BzlmodGeneratedCellSetupModel { canonical_repo_name, generator },
                ),
            },
        },
    }
}

/// Where a cell comes from, by the kind that is configured for it and its
/// section, with the JSON in it read.
pub open spec fn cell_origin(
    cell: Text,
    value: Text,
    config: ConfigItems,
    json: OriginJsonModel,
    listed: Option<Option<Seq<Text>>>,
) -> Result<ExternalCellOriginModel, Text> {
    let section = "external_cell_"@ + cell;
    if value == "bundled"@ {
        Ok(ExternalCellOriginModel::Bundled(cell))
    } else if value == "git"@ {
        match git_origin(config, section) {
            Ok(setup) => Ok(ExternalCellOriginModel::Git(setup)),
            Err(e) => Err(e),
        }
    } else if value == BZLMOD_EXTERNAL_CELL_KIND@ {
        match module_origin(config, section, json, listed) {
            Ok(setup) => Ok(ExternalCellOriginModel::Bzlmod(setup)),
            Err(e) => Err(e),
        }
    } else if value == BZLMOD_GENERATED_EXTERNAL_CELL_KIND@ {
        match generated_origin(config, section, json.generator) {
            Ok(setup) => Ok(ExternalCellOriginModel::BzlmodGenerated(setup)),
            Err(e) => Err(e),
        }
    } else {
        Err("Unknown external cell origin `"@ + value + "`"@)
    }
}

/// The list of sources in a cell's section, read as JSON.
pub open spec fn listed_urls(config: ConfigItems, cell: Text) -> Option<Option<Seq<Text>>> {
    match config_value(config, "external_cell_"@ + cell, "urls"@) {
        Some(text) => Some(json_strings_value(text)),
        None => None,
    }
}

fn git_setup(config: &LegacyBuckConfig, section: &str) -> (r: Result<GitCellSetup, InputError>)
    requires
        config_resolved(config.deep_view()),
    ensures
        result_view(r) == git_origin(config.deep_view(), section@),
{
    let commit = get_needed(config, section, "commit_hash")?;
    let object_format = git_format_of(config, section, commit)?;
    let git_origin = get_needed(config, section, "git_origin")?;
    Ok(GitCellSetup { git_origin: git_origin.to_owned(), commit: commit.to_owned(), object_format })
}

fn invalid<T>(message: &str) -> (r: Result<T, InputError>)
    ensures
        r matches Err(e) && e.deep_view() == message@,
{
    Err(InputError { message: message.to_owned() })
}

fn bzlmod_setup(
    config: &LegacyBuckConfig,
    section: &str,
    json: &OriginJson,
    listed: Option<Option<Vec<String>>>,
) -> (r: Result<BzlmodCellSetup, InputError>)
    requires
        config_resolved(config.deep_view()),
    ensures
        result_view(r) == module_origin(
            config.deep_view(),
            section@,
            json.deep_view(),
            listed.deep_view(),
        ),
{
    get_needed(config, section, "patches")?;
    let patches = match &json.patches {
        Some(patches) => patches,
        None => {
            return invalid("Invalid bzlmod patch configuration");
        },
    };
    let overlays = match &json.overlays {
        Some(overlays) => overlays,
        None => {
            return invalid("Invalid bzlmod overlay configuration");
        },
    };
    let patch_strip: u32 = parse_number(get_needed(config, section, "patch_strip")?)?;
    let url = get_needed(config, section, "url")?;
    let urls = match listed {
        Some(Some(urls)) => urls,
        Some(None) => {
            return invalid("Invalid bzlmod URL configuration");
        },
        None => {
            let mut urls: Vec<String> = Vec::new();
            urls.push(url.to_owned());
            assert(urls.deep_view() =~= seq![url@]);
            urls
        },
    };
    let module_name = get_needed(config, section, "module_name")?;
    let version = get_needed(config, section, "version")?;
    let canonical_repo_name = get_needed(config, section, "canonical_repo_name")?;
    let integrity = get_needed(config, section, "integrity")?;
    Ok(
        BzlmodCellSetup {
            module_name: module_name.to_owned(),
            version: version.to_owned(),
            canonical_repo_name: canonical_repo_name.to_owned(),
            local_path: owned(config.get(section, "local_path")),
            url: url.to_owned(),
            urls,
            integrity: integrity.to_owned(),
            strip_prefix: owned(config.get(section, "strip_prefix")),
            archive_type: owned(config.get(section, "archive_type")),
            patches: patches_of(patches, patch_strip),
            overlays: overlays_of(overlays),
            patch_strip,
        },
    )
}

fn generated_setup(
    config: &LegacyBuckConfig,
    section: &str,
    generator: &Option<BzlmodGeneratedCellGenerator>,
) -> (r: Result<BzlmodGeneratedCellSetup, InputError>)
    requires
        config_resolved(config.deep_view()),
    ensures
        result_view(r) == generated_origin(config.deep_view(), section@, generator.deep_view()),
{
    get_needed(config, section, "generator")?;
    let generator = match generator {
        Some(generator) => generator,
        None => {
            return invalid("Invalid generated bzlmod repo configuration");
        },
    };
    let canonical_repo_name = get_needed(config, section, "canonical_repo_name")?;
    Ok(
        BzlmodGeneratedCellSetup {
            canonical_repo_name: canonical_repo_name.to_owned(),
            generator: generator.duplicate(),
        },
    )
}

/// Where a cell comes from, with the list of sources in its section read.
pub fn external_cell_origin_with_urls(
    cell: &str,
    value: &str,
    config: &LegacyBuckConfig,
    json: &OriginJson,
    listed: Option<Option<Vec<String>>>,
) -> (r: Result<ExternalCellOrigin, InputError>)
    requires
        config_resolved(config.deep_view()),
    ensures
        result_view(r) == cell_origin(
            cell@,
            value@,
            config.deep_view(),
            json.deep_view(),
            listed.deep_view(),
        ),
{
    let section = concat("external_cell_", cell);
    let section = section.as_str();
    if same(value, "bundled") {
        Ok(ExternalCellOrigin::Bundled(cell.to_owned()))
    } else if same(value, "git") {
        Ok(ExternalCellOrigin::Git(git_setup(config, section)?))
    } else if same(value, BZLMOD_EXTERNAL_CELL_KIND) {
        Ok(ExternalCellOrigin::Bzlmod(bzlmod_setup(config, section, json, listed)?))
    } else if same(value, BZLMOD_GENERATED_EXTERNAL_CELL_KIND) {
        Ok(
            ExternalCellOrigin::BzlmodGenerated(
                generated_setup(config, section, &json.generator)?,
            ),
        )
    } else {
        Err(InputError { message: concat3("Unknown external cell origin `", value, "`") })
    }
}

/// Where a cell comes from.
pub fn parse_external_cell_origin(
    cell: &str,
    value: &str,
    config: &LegacyBuckConfig,
    json: &OriginJson,
) -> (r: Result<ExternalCellOrigin, InputError>)
    requires
        config_resolved(config.deep_view()),
    ensures
        result_view(r) == cell_origin(
            cell@,
            value@,
            config.deep_view(),
            json.deep_view(),
            listed_urls(config.deep_view(), cell@),
        ),
{
    let section = concat("external_cell_", cell);
    let listed = match config.get(section.as_str(), "urls") {
        Some(text) => Some(json_strings_from(text).ok()),
        None => None,
    };
    external_cell_origin_with_urls(cell, value, config, json, listed)
}

/// Where a module's cell comes from, with the JSON in its description read.
pub open spec fn module_cell_origin(
    module: BazelCompatExternalModuleModel,
    json: OriginJsonModel,
    urls: Option<Seq<Text>>,
) -> Result<ExternalCellOriginModel, Text> {
    match module {
        BazelCompatExternalModuleModel::Registry(m) => if json.patches is None {
            Err("Invalid bzlmod patch configuration"@)
        } else if json.overlays is None {
            Err("Invalid bzlmod overlay configuration"@)
        } else if urls is None {
            Err("Invalid bzlmod URL configuration"@)
        } else {
            Ok(
                ExternalCellOriginModel::Bzlmod(
                    BzlmodCellSetupModel {
                        module_name: m.module_name,
                        version: m.version,
                        canonical_repo_name: m.canonical_repo_name,
                        local_path: m.local_path,
                        url: m.url,
                        urls: urls->0,
                        integrity: m.integrity,
                        strip_prefix: m.strip_prefix,
                        archive_type: m.archive_type,
                        patches: setup_patches(json.patches->0, m.patch_strip),
                        overlays: setup_overlays(json.overlays->0),
                        patch_strip: m.patch_strip,
                    },
                ),
            )
        },
        BazelCompatExternalModuleModel::Generated(m) => match json.generator {
            None => Err("Invalid generated bzlmod repo configuration"@),
            Some(generator) => Ok(
                ExternalCellOriginModel::BzlmodGenerated(
                    BzlmodGeneratedCellSetupModel {
                        canonical_repo_name: m.canonical_repo_name,
                        generator,
                    },
                ),
            ),
        },
    }
}

/// The list of sources in a module's description, read as JSON.
pub open spec fn module_urls(module: BazelCompatExternalModuleModel) -> Option<Seq<Text>> {
    match module {
        BazelCompatExternalModuleModel::Registry(m) => json_strings_value(m.urls_json),
        BazelCompatExternalModuleModel::Generated(_) => None,
    }
}

/// Where a module's cell comes from, with the list of sources read.
pub fn external_cell_origin_from_read_module(
    module: &BazelCompatExternalModule,
    json: &OriginJson,
    urls: Option<Vec<String>>,
) -> (r: Result<ExternalCellOrigin, InputError>)
    ensures
        result_view(r) == module_cell_origin(
            module.deep_view(),
            json.deep_view(),
            urls.deep_view(),
        ),
{
    match module {
        BazelCompatExternalModule::Registry(m) => {
            let patches = match &json.patches {
                Some(patches) => patches,
                None => {
                    return invalid("Invalid bzlmod patch configuration");
                },
            };
            let overlays = match &json.overlays {
                Some(overlays) => overlays,
                None => {
                    return invalid("Invalid bzlmod overlay configuration");
                },
            };
            let urls = match urls {
                Some(urls) => urls,
                None => {
                    return invalid("Invalid bzlmod URL configuration");
                },
            };
            Ok(
                ExternalCellOrigin::Bzlmod(
                    BzlmodCellSetup {
                        module_name: m.module_name.clone(),
                        version: m.version.clone(),
                        canonical_repo_name: m.canonical_repo_name.clone(),
                        local_path: m.local_path.duplicate(),
                        url: m.url.clone(),
                        urls,
                        integrity: m.integrity.clone(),
                        strip_prefix: m.strip_prefix.duplicate(),
                        archive_type: m.archive_type.duplicate(),
                        patches: patches_of(patches, m.patch_strip),
                        overlays: overlays_of(overlays),
                        patch_strip: m.patch_strip,
                    },
                ),
            )
        },
        BazelCompatExternalModule::Generated(m) => {
            let generator = match &json.generator {
                Some(generator) => generator,
                None => {
                    return invalid("Invalid generated bzlmod repo configuration");
                },
            };
            Ok(
                ExternalCellOrigin::BzlmodGenerated(
                    BzlmodGeneratedCellSetup {
                        canonical_repo_name: m.canonical_repo_name.clone(),
                        generator: generator.duplicate(),
                    },
                ),
            )
        },
    }
}

/// Where a module's cell comes from.
pub fn external_cell_origin_from_bazel_module(
    module: &BazelCompatExternalModule,
    json: &OriginJson,
) -> (r: Result<ExternalCellOrigin, InputError>)
    ensures
        result_view(r) == module_cell_origin(
            module.deep_view(),
            json.deep_view(),
            module_urls(module.deep_view()),
        ),
{
    let urls = match module {
        BazelCompatExternalModule::Registry(m) => json_strings_from(m.urls_json.as_str()).ok(),
        BazelCompatExternalModule::Generated(_) => None,
    };
    external_cell_origin_from_read_module(module, json, urls)
}

/// A cell in a git repository has the address and the commit of its section. A commit is
/// forty hexadecimal digits where the format is `sha1` or none is given, and sixty-four
/// where it is `sha256`; any other is refused.
pub proof fn law_git_origin(config: ConfigItems, section: Text)
    ensures
        match git_origin(config, section) {
            Ok(setup) => {
                &&& config_value(config, section, "git_origin"@) == Some(setup.git_origin)
                &&& config_value(config, section, "commit_hash"@) == Some(setup.commit)
                &&& forall|i: int|
                    0 <= i < setup.commit.len() ==> ('0' <= #[trigger] setup.commit[i]
                        && setup.commit[i] <= '9') || ('a' <= setup.commit[i] && setup.commit[i]
                        <= 'f') || ('A' <= setup.commit[i] && setup.commit[i] <= 'F')
                &&& match config_value(config, section, "object_format"@) {
                    None => setup.object_format is None && setup.commit.len() == 40,
                    Some(format) => {
                        &&& format == "sha1"@ ==> setup.object_format == Some(
                            GitObjectFormat::Sha1,
                        ) && setup.commit.len() == 40
                        &&& format != "sha1"@ ==> format == "sha256"@ && setup.object_format
                            == Some(GitObjectFormat::Sha256) && setup.commit.len() == 64
                    },
                }
            },
            Err(_) => true,
        },
{
    if let Ok(setup) = git_origin(config, section) {
        assert forall|i: int| 0 <= i < setup.commit.len() implies ('0' <= #[trigger] setup.commit[i]
            && setup.commit[i] <= '9') || ('a' <= setup.commit[i] && setup.commit[i] <= 'f') || ('A'
            <= setup.commit[i] && setup.commit[i] <= 'F') by {
            assert(is_hex_digit(setup.commit[i]));
        }
    }
}

/// The cell of a module is what its section says, key by key; where no list of addresses is
/// given it comes from the one address.
pub proof fn law_module_origin(
    config: ConfigItems,
    section: Text,
    json: OriginJsonModel,
    listed: Option<Option<Seq<Text>>>,
)
    ensures
        match module_origin(config, section, json, listed) {
            Ok(setup) => {
                &&& config_value(config, section, "module_name"@) == Some(setup.module_name)
                &&& config_value(config, section, "version"@) == Some(setup.version)
                &&& config_value(config, section, "canonical_repo_name"@) == Some(
                    setup.canonical_repo_name,
                )
                &&& config_value(config, section, "url"@) == Some(setup.url)
                &&& config_value(config, section, "integrity"@) == Some(setup.integrity)
                &&& config_value(config, section, "local_path"@) == setup.local_path
                &&& config_value(config, section, "strip_prefix"@) == setup.strip_prefix
                &&& config_value(config, section, "archive_type"@) == setup.archive_type
                &&& listed is None ==> setup.urls == seq![setup.url]
                &&& listed matches Some(Some(urls)) ==> setup.urls == urls
                &&& json.patches is Some && setup.patches.len() == json.patches->0.len()
                &&& forall|i: int|
                    0 <= i < setup.patches.len() ==> (#[trigger] setup.patches[i]).url
                        == json.patches->0[i].url && setup.patches[i].integrity
                        == json.patches->0[i].integrity && setup.patches[i].patch_strip == (
                    match json.patches->0[i].patch_strip {
                        Some(own) => own,
                        None => setup.patch_strip,
                    })
            },
            Err(_) => true,
        },
{
}

/// What a cell's kind says decides where it comes from, and an unknown kind is refused.
pub proof fn law_cell_origin(
    cell: Text,
    value: Text,
    config: ConfigItems,
    json: OriginJsonModel,
    listed: Option<Option<Seq<Text>>>,
)
    ensures
        value == "bundled"@ ==> cell_origin(cell, value, config, json, listed) == Ok::<
            ExternalCellOriginModel,
            Text,
        >(ExternalCellOriginModel::Bundled(cell)),
        match cell_origin(cell, value, config, json, listed) {
            Ok(ExternalCellOriginModel::Bundled(name)) => value == "bundled"@ && name == cell,
            Ok(ExternalCellOriginModel::Git(_)) => value == "git"@,
            Ok(ExternalCellOriginModel::Bzlmod(setup)) => value == "bzlmod"@ && config_value(
                config,
                "external_cell_"@ + cell,
                "module_name"@,
            ) == Some(setup.module_name),
            Ok(ExternalCellOriginModel::BzlmodGenerated(setup)) => value == "bzlmod_generated"@
                && config_value(config, "external_cell_"@ + cell, "canonical_repo_name"@) == Some(
                setup.canonical_repo_name,
            ),
            Err(_) => true,
        },
{
    law_module_origin(config, "external_cell_"@ + cell, json, listed);
}

} // verus!
