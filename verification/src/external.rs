//! External cells: their names, their origins, and the registry that holds them.

use vstd::prelude::*;
use vstd::string::*;
use crate::module::InputError;
use crate::ordered::{
    Duplicate, KeyMap, law_lookup_after_put, lookup, put, result_view, sorted_items,
};
use crate::scan::{is_bzl_ident, is_ident, is_identifier};
use crate::text::{
    Text, char_is_ascii_digit, chars_of, concat, concat3, is_ascii_digit, same, starts_with,
    strip_prefix,
};

verus! {

pub const BZLMOD_BAZEL_COMPAT_VERSION: &'static str = "9.1.0";

pub const EXTERNAL_CELLS_ROOT: &'static str = "buck-out/v2/external_cells";

pub const BZLMOD_EXTERNAL_CELL_KIND: &'static str = "bzlmod";

pub const BZLMOD_GENERATED_EXTERNAL_CELL_KIND: &'static str = "bzlmod_generated";

pub const BZLMOD_GENERATED_EXTERNAL_CELL_PATH_MARKER: &'static str = "/bzlmod_generated/";

pub const BAZEL_REPOSITORY_ACCEPT_ENCODING_HEADER: &'static str = "Accept-Encoding";

pub const BAZEL_REPOSITORY_ACCEPT_ENCODING: &'static str = "gzip";

pub const BAZEL_REPOSITORY_USER_AGENT_HEADER: &'static str = "User-Agent";

/// The user agent that repositories are fetched with.
pub fn bazel_repository_user_agent() -> (r: String)
    ensures
        r@ == "Bazel/release "@ + BZLMOD_BAZEL_COMPAT_VERSION@,
{
    concat("Bazel/release ", BZLMOD_BAZEL_COMPAT_VERSION)
}

/// The directory of an external cell, from the project root.
pub open spec fn source_path(kind: Text, canonical_repo_name: Text) -> Text {
    EXTERNAL_CELLS_ROOT@ + "/"@ + kind + "/"@ + canonical_repo_name
}

/// The directory of an external cell, from the project root.
pub fn external_cell_source_path(kind: &str, canonical_repo_name: &str) -> (r: String)
    ensures
        r@ == source_path(kind@, canonical_repo_name@),
{
    let mut path = concat3(EXTERNAL_CELLS_ROOT, "/", kind);
    path.append("/");
    path.append(canonical_repo_name);
    path
}

/// How many bytes a character takes in UTF-8.
pub open spec fn utf8_len(c: char) -> nat {
    if (c as u32) < 0x80 {
        1
    } else if (c as u32) < 0x800 {
        2
    } else if (c as u32) < 0x10000 {
        3
    } else {
        4
    }
}

/// A character in a cell name: identifier characters as they are, and an
/// underscore for each byte of any other.
pub open spec fn cell_name_chars(c: char) -> Text {
    if is_ident(c) {
        seq![c]
    } else {
        Seq::new(utf8_len(c), |i: int| '_')
    }
}

/// The characters of a repository name as they stand in a cell name.
pub open spec fn cell_name_tail(name: Text) -> Text
    decreases name.len(),
{
    if name.len() == 0 {
        seq![]
    } else {
        cell_name_tail(name.drop_last()) + cell_name_chars(name.last())
    }
}

/// The name of the cell of a repository.
pub open spec fn cell_name_of(canonical_repo_name: Text) -> Text {
    "bzlmod_"@ + cell_name_tail(canonical_repo_name)
}

/// The name of the cell of a repository.
pub fn bzlmod_cell_name(canonical_repo_name: &str) -> (r: String)
    ensures
        r@ == cell_name_of(canonical_repo_name@),
{
    let v = chars_of(canonical_repo_name);
    let mut cell = "bzlmod_".to_owned();
    let mut i: usize = 0;
    assert("bzlmod_"@ + seq![] =~= "bzlmod_"@);
    while i < v.len()
        invariant
            v@ == canonical_repo_name@,
            0 <= i <= v@.len(),
            cell@ =~= "bzlmod_"@ + cell_name_tail(v@.take(i as int)),
        decreases v.len() - i,
    {
        let c = v[i];
        proof {
            let t = v@.take(i + 1);
            assert(t.drop_last() =~= v@.take(i as int));
            assert(t.last() == c);
        }
        let ghost before = cell@;
        if is_bzl_ident(c) {
            cell.push(c);
            assert(cell@ =~= before + seq![c]);
        } else {
            cell.push('_');
            if c as u32 >= 0x80 {
                cell.push('_');
            }
            if c as u32 >= 0x800 {
                cell.push('_');
            }
            if c as u32 >= 0x10000 {
                cell.push('_');
            }
            assert(cell@ =~= before + cell_name_chars(c));
        }
        i += 1;
    }
    assert(v@.take(i as int) =~= v@);
    cell
}

/// A cell name is made of identifier characters.
pub proof fn law_cell_name_is_identifier(canonical_repo_name: Text)
    ensures
        is_identifier(cell_name_of(canonical_repo_name)),
    decreases canonical_repo_name.len(),
{
    reveal_strlit("bzlmod_");
    lemma_cell_name_tail(canonical_repo_name);
    let name = cell_name_of(canonical_repo_name);
    let tail = cell_name_tail(canonical_repo_name);
    assert(name[0] == 'b');
    assert forall|i: int| 0 <= i < name.len() implies is_ident(#[trigger] name[i]) by {
        if i >= 7 {
            assert(name[i] == tail[i - 7]);
        }
    }
}

proof fn lemma_cell_name_tail(name: Text)
    ensures
        forall|i: int| 0 <= i < cell_name_tail(name).len() ==> is_ident(
            #[trigger] cell_name_tail(name)[i],
        ),
    decreases name.len(),
{
    if name.len() > 0 {
        lemma_cell_name_tail(name.drop_last());
        let before = cell_name_tail(name.drop_last());
        let chars = cell_name_chars(name.last());
        let tail = cell_name_tail(name);
        assert forall|i: int| 0 <= i < tail.len() implies is_ident(#[trigger] tail[i]) by {
            if i < before.len() {
                assert(tail[i] == before[i]);
            } else {
                assert(tail[i] == chars[i - before.len()]);
            }
        }
    }
}

/// A name that a repository's cell has.
pub open spec fn is_repository_cell(cell_name: Text) -> bool {
    "bzlmod_"@.is_prefix_of(cell_name)
}

/// Whether a cell is that of a repository, by its name.
pub fn is_bzlmod_cell_name(cell_name: &str) -> (r: bool)
    ensures
        r == is_repository_cell(cell_name@),
{
    starts_with(cell_name, "bzlmod_")
}

/// The cell of a repository is known by its name.
pub proof fn law_cell_name_is_repository_cell(canonical_repo_name: Text)
    ensures
        is_repository_cell(cell_name_of(canonical_repo_name)),
{
    let name = cell_name_of(canonical_repo_name);
    assert(name.subrange(0, "bzlmod_"@.len() as int) =~= "bzlmod_"@);
}

/// The hash function that names a Git commit.
#[derive(Debug, PartialEq, Eq, Clone, Copy)]
pub enum GitObjectFormat {
    Sha1,
    Sha256,
}

impl DeepView for GitObjectFormat {
    type V = GitObjectFormat;

    open spec fn deep_view(&self) -> GitObjectFormat {
        *self
    }
}

impl Duplicate for GitObjectFormat {
    fn duplicate(&self) -> (r: Self) {
        *self
    }
}

pub open spec fn is_hex_digit(c: char) -> bool {
    is_ascii_digit(c) || ('a' <= c && c <= 'f') || ('A' <= c && c <= 'F')
}

/// `n` hexadecimal digits.
pub open spec fn is_hex_digest(s: Text, n: nat) -> bool {
    s.len() == n && forall|i: int| 0 <= i < s.len() ==> is_hex_digit(#[trigger] s[i])
}

fn is_hex_digest_of(s: &str, n: usize) -> (r: bool)
    ensures
        r == is_hex_digest(s@, n as nat),
{
    let v = chars_of(s);
    let mut i: usize = 0;
    while i < v.len()
        invariant
            v@ == s@,
            0 <= i <= v@.len(),
            forall|j: int| 0 <= j < i ==> is_hex_digit(#[trigger] v@[j]),
        decreases v.len() - i,
    {
        let c = v[i];
        if !(char_is_ascii_digit(c) || ('a' <= c && c <= 'f') || ('A' <= c && c <= 'F')) {
            return false;
        }
        i += 1;
    }
    v.len() == n
}

/// The hash function of a name.
pub open spec fn object_format(s: Text) -> Result<GitObjectFormat, Text> {
    if s == "sha1"@ {
        Ok(GitObjectFormat::Sha1)
    } else if s == "sha256"@ {
        Ok(GitObjectFormat::Sha256)
    } else {
        Err("object_format must be one of `sha1` or `sha256` (got: "@ + s + ")"@)
    }
}

impl GitObjectFormat {
    /// The hash function of a name.
    pub fn parse(s: &str) -> (r: Result<Self, InputError>)
        ensures
            result_view(r) == object_format(s@),
    {
        if same(s, "sha1") {
            Ok(GitObjectFormat::Sha1)
        } else if same(s, "sha256") {
            Ok(GitObjectFormat::Sha256)
        } else {
            Err(
                InputError {
                    message: concat3(
                        "object_format must be one of `sha1` or `sha256` (got: ",
                        s,
                        ")",
                    ),
                },
            )
        }
    }

    /// The name of the hash function.
    pub open spec fn name(self) -> Text {
        match self {
            GitObjectFormat::Sha1 => "sha1"@,
            GitObjectFormat::Sha256 => "sha256"@,
        }
    }

    /// The name of the hash function.
    pub fn display(&self) -> (r: String)
        ensures
            r@ == self.name(),
    {
        match self {
            GitObjectFormat::Sha1 => "sha1".to_owned(),
            GitObjectFormat::Sha256 => "sha256".to_owned(),
        }
    }

    /// Why a text is no hash of this function; nothing where it is one.
    pub open spec fn refusal(self, s: Text) -> Option<Text> {
        match self {
            GitObjectFormat::Sha1 => if is_hex_digest(s, 40) {
                None
            } else {
                Some("not a valid SHA1 digest (got: "@ + s + ")"@)
            },
            GitObjectFormat::Sha256 => if is_hex_digest(s, 64) {
                None
            } else {
                Some("not a valid SHA256 digest (got: "@ + s + ")"@)
            },
        }
    }

    /// Checks that a text is a hash of this function.
    pub fn check(&self, s: &str) -> (r: Result<(), InputError>)
        ensures
            match self.refusal(s@) {
                None => r is Ok,
                Some(message) => r matches Err(e) && e.deep_view() == message,
            },
    {
        match self {
            GitObjectFormat::Sha1 => {
                if is_hex_digest_of(s, 40) {
                    Ok(())
                } else {
                    Err(InputError { message: concat3("not a valid SHA1 digest (got: ", s, ")") })
                }
            },
            GitObjectFormat::Sha256 => {
                if is_hex_digest_of(s, 64) {
                    Ok(())
                } else {
                    Err(
                        InputError { message: concat3("not a valid SHA256 digest (got: ", s, ")") },
                    )
                }
            },
        }
    }
}

/// The name of a hash function is read as that function.
pub proof fn law_object_format_round_trip(f: GitObjectFormat)
    ensures
        object_format(f.name()) == Ok::<GitObjectFormat, Text>(f),
{
    reveal_strlit("sha1");
    reveal_strlit("sha256");
    assert("sha1"@.len() != "sha256"@.len());
}

/// A patch of a module archive.
#[derive(Debug, PartialEq, Eq)]
pub struct BzlmodPatch {
    pub url: String,
    pub integrity: String,
    pub path: Option<String>,
    pub content_sha256: Option<String>,
    pub patch_strip: u32,
}

/// The model of [`BzlmodPatch`].
pub struct BzlmodPatchModel {
    pub url: Text,
    pub integrity: Text,
    pub path: Option<Text>,
    pub content_sha256: Option<Text>,
    pub patch_strip: u32,
}

impl DeepView for BzlmodPatch {
    type V = BzlmodPatchModel;

    open spec fn deep_view(&self) -> BzlmodPatchModel {
        BzlmodPatchModel {
            url: self.url.deep_view(),
            integrity: self.integrity.deep_view(),
            path: self.path.deep_view(),
            content_sha256: self.content_sha256.deep_view(),
            patch_strip: self.patch_strip.deep_view(),
        }
    }
}

impl Duplicate for BzlmodPatch {
    fn duplicate(&self) -> (r: Self) {
        BzlmodPatch {
            url: self.url.duplicate(),
            integrity: self.integrity.duplicate(),
            path: self.path.duplicate(),
            content_sha256: self.content_sha256.duplicate(),
            patch_strip: self.patch_strip.duplicate(),
        }
    }
}

/// A file laid over a module archive.
#[derive(Debug, PartialEq, Eq)]
pub struct BzlmodOverlay {
    pub path: String,
    pub url: String,
    pub integrity: String,
}

/// The model of [`BzlmodOverlay`].
pub struct BzlmodOverlayModel {
    pub path: Text,
    pub url: Text,
    pub integrity: Text,
}

impl DeepView for BzlmodOverlay {
    type V = BzlmodOverlayModel;

    open spec fn deep_view(&self) -> BzlmodOverlayModel {
        BzlmodOverlayModel {
            path: self.path.deep_view(),
            url: self.url.deep_view(),
            integrity: self.integrity.deep_view(),
        }
    }
}

impl Duplicate for BzlmodOverlay {
    fn duplicate(&self) -> (r: Self) {
        BzlmodOverlay {
            path: self.path.duplicate(),
            url: self.url.duplicate(),
            integrity: self.integrity.duplicate(),
        }
    }
}

/// A cell that holds a module of a registry.
#[derive(Debug, PartialEq, Eq)]
pub struct BzlmodCellSetup {
    pub module_name: String,
    pub version: String,
    pub canonical_repo_name: String,
    pub local_path: Option<String>,
    pub url: String,
    pub urls: Vec<String>,
    pub integrity: String,
    pub strip_prefix: Option<String>,
    pub archive_type: Option<String>,
    pub patches: Vec<BzlmodPatch>,
    pub overlays: Vec<BzlmodOverlay>,
    pub patch_strip: u32,
}

/// The model of [`BzlmodCellSetup`].
pub struct BzlmodCellSetupModel {
    pub module_name: Text,
    pub version: Text,
    pub canonical_repo_name: Text,
    pub local_path: Option<Text>,
    pub url: Text,
    pub urls: Seq<Text>,
    pub integrity: Text,
    pub strip_prefix: Option<Text>,
    pub archive_type: Option<Text>,
    pub patches: Seq<BzlmodPatchModel>,
    pub overlays: Seq<BzlmodOverlayModel>,
    pub patch_strip: u32,
}

impl DeepView for BzlmodCellSetup {
    type V = BzlmodCellSetupModel;

    open spec fn deep_view(&self) -> BzlmodCellSetupModel {
        BzlmodCellSetupModel {
            module_name: self.module_name.deep_view(),
            version: self.version.deep_view(),
            canonical_repo_name: self.canonical_repo_name.deep_view(),
            local_path: self.local_path.deep_view(),
            url: self.url.deep_view(),
            urls: self.urls.deep_view(),
            integrity: self.integrity.deep_view(),
            strip_prefix: self.strip_prefix.deep_view(),
            archive_type: self.archive_type.deep_view(),
            patches: self.patches.deep_view(),
            overlays: self.overlays.deep_view(),
            patch_strip: self.patch_strip.deep_view(),
        }
    }
}

impl Duplicate for BzlmodCellSetup {
    fn duplicate(&self) -> (r: Self) {
        BzlmodCellSetup {
            module_name: self.module_name.duplicate(),
            version: self.version.duplicate(),
            canonical_repo_name: self.canonical_repo_name.duplicate(),
            local_path: self.local_path.duplicate(),
            url: self.url.duplicate(),
            urls: self.urls.duplicate(),
            integrity: self.integrity.duplicate(),
            strip_prefix: self.strip_prefix.duplicate(),
            archive_type: self.archive_type.duplicate(),
            patches: self.patches.duplicate(),
            overlays: self.overlays.duplicate(),
            patch_strip: self.patch_strip.duplicate(),
        }
    }
}

/// The globals of `bazel_features`.
#[derive(Debug, PartialEq, Eq)]
pub struct BzlmodBazelFeaturesGlobalsSetup {
    pub parent_canonical_repo_name: String,
    pub bazel_version: String,
}

/// The model of [`BzlmodBazelFeaturesGlobalsSetup`].
pub struct BzlmodBazelFeaturesGlobalsSetupModel {
    pub parent_canonical_repo_name: Text,
    pub bazel_version: Text,
}

impl DeepView for BzlmodBazelFeaturesGlobalsSetup {
    type V = BzlmodBazelFeaturesGlobalsSetupModel;

    open spec fn deep_view(&self) -> BzlmodBazelFeaturesGlobalsSetupModel {
        BzlmodBazelFeaturesGlobalsSetupModel {
            parent_canonical_repo_name: self.parent_canonical_repo_name.deep_view(),
            bazel_version: self.bazel_version.deep_view(),
        }
    }
}

impl Duplicate for BzlmodBazelFeaturesGlobalsSetup {
    fn duplicate(&self) -> (r: Self) {
        BzlmodBazelFeaturesGlobalsSetup {
            parent_canonical_repo_name: self.parent_canonical_repo_name.duplicate(),
            bazel_version: self.bazel_version.duplicate(),
        }
    }
}

/// The version that `bazel_features` reports.
#[derive(Debug, PartialEq, Eq)]
pub struct BzlmodBazelFeaturesVersionSetup {
    pub bazel_version: String,
}

/// The model of [`BzlmodBazelFeaturesVersionSetup`].
pub struct BzlmodBazelFeaturesVersionSetupModel {
    pub bazel_version: Text,
}

impl DeepView for BzlmodBazelFeaturesVersionSetup {
    type V = BzlmodBazelFeaturesVersionSetupModel;

    open spec fn deep_view(&self) -> BzlmodBazelFeaturesVersionSetupModel {
        BzlmodBazelFeaturesVersionSetupModel {
            bazel_version: self.bazel_version.deep_view(),
        }
    }
}

impl Duplicate for BzlmodBazelFeaturesVersionSetup {
    fn duplicate(&self) -> (r: Self) {
        BzlmodBazelFeaturesVersionSetup {
            bazel_version: self.bazel_version.duplicate(),
        }
    }
}

/// The host platform.
#[derive(Debug, PartialEq, Eq)]
pub struct BzlmodHostPlatformSetup {
}

/// The model of [`BzlmodHostPlatformSetup`].
pub struct BzlmodHostPlatformSetupModel {
}

impl DeepView for BzlmodHostPlatformSetup {
    type V = BzlmodHostPlatformSetupModel;

    open spec fn deep_view(&self) -> BzlmodHostPlatformSetupModel {
        BzlmodHostPlatformSetupModel {
        }
    }
}

impl Duplicate for BzlmodHostPlatformSetup {
    fn duplicate(&self) -> (r: Self) {
        BzlmodHostPlatformSetup {
        }
    }
}

/// The toolchains that the C++ autoconfiguration declares.
#[derive(Debug, PartialEq, Eq)]
pub struct BzlmodCcAutoconfToolchainsSetup {
    pub parent_canonical_repo_name: String,
}

/// The model of [`BzlmodCcAutoconfToolchainsSetup`].
pub struct BzlmodCcAutoconfToolchainsSetupModel {
    pub parent_canonical_repo_name: Text,
}

impl DeepView for BzlmodCcAutoconfToolchainsSetup {
    type V = BzlmodCcAutoconfToolchainsSetupModel;

    open spec fn deep_view(&self) -> BzlmodCcAutoconfToolchainsSetupModel {
        BzlmodCcAutoconfToolchainsSetupModel {
            parent_canonical_repo_name: self.parent_canonical_repo_name.deep_view(),
        }
    }
}

impl Duplicate for BzlmodCcAutoconfToolchainsSetup {
    fn duplicate(&self) -> (r: Self) {
        BzlmodCcAutoconfToolchainsSetup {
            parent_canonical_repo_name: self.parent_canonical_repo_name.duplicate(),
        }
    }
}

/// The C++ autoconfiguration.
#[derive(Debug, PartialEq, Eq)]
pub struct BzlmodCcAutoconfSetup {
}

/// The model of [`BzlmodCcAutoconfSetup`].
pub struct BzlmodCcAutoconfSetupModel {
}

impl DeepView for BzlmodCcAutoconfSetup {
    type V = BzlmodCcAutoconfSetupModel;

    open spec fn deep_view(&self) -> BzlmodCcAutoconfSetupModel {
        BzlmodCcAutoconfSetupModel {
        }
    }
}

impl Duplicate for BzlmodCcAutoconfSetup {
    fn duplicate(&self) -> (r: Self) {
        BzlmodCcAutoconfSetup {
        }
    }
}

/// The Xcode configuration.
#[derive(Debug, PartialEq, Eq)]
pub struct BzlmodXcodeConfigSetup {
}

/// The model of [`BzlmodXcodeConfigSetup`].
pub struct BzlmodXcodeConfigSetupModel {
}

impl DeepView for BzlmodXcodeConfigSetup {
    type V = BzlmodXcodeConfigSetupModel;

    open spec fn deep_view(&self) -> BzlmodXcodeConfigSetupModel {
        BzlmodXcodeConfigSetupModel {
        }
    }
}

impl Duplicate for BzlmodXcodeConfigSetup {
    fn duplicate(&self) -> (r: Self) {
        BzlmodXcodeConfigSetup {
        }
    }
}

/// The shell configuration.
#[derive(Debug, PartialEq, Eq)]
pub struct BzlmodShellConfigSetup {
}

/// The model of [`BzlmodShellConfigSetup`].
pub struct BzlmodShellConfigSetupModel {
}

impl DeepView for BzlmodShellConfigSetup {
    type V = BzlmodShellConfigSetupModel;

    open spec fn deep_view(&self) -> BzlmodShellConfigSetupModel {
        BzlmodShellConfigSetupModel {
        }
    }
}

impl Duplicate for BzlmodShellConfigSetup {
    fn duplicate(&self) -> (r: Self) {
        BzlmodShellConfigSetup {
        }
    }
}

/// An archive fetched over HTTP.
#[derive(Debug, PartialEq, Eq)]
pub struct BzlmodHttpArchiveSetup {
    pub repo_name: String,
    pub url: String,
    pub sha256: String,
    pub strip_prefix: Option<String>,
    pub archive_type: Option<String>,
}

/// The model of [`BzlmodHttpArchiveSetup`].
pub struct BzlmodHttpArchiveSetupModel {
    pub repo_name: Text,
    pub url: Text,
    pub sha256: Text,
    pub strip_prefix: Option<Text>,
    pub archive_type: Option<Text>,
}

impl DeepView for BzlmodHttpArchiveSetup {
    type V = BzlmodHttpArchiveSetupModel;

    open spec fn deep_view(&self) -> BzlmodHttpArchiveSetupModel {
        BzlmodHttpArchiveSetupModel {
            repo_name: self.repo_name.deep_view(),
            url: self.url.deep_view(),
            sha256: self.sha256.deep_view(),
            strip_prefix: self.strip_prefix.deep_view(),
            archive_type: self.archive_type.deep_view(),
        }
    }
}

impl Duplicate for BzlmodHttpArchiveSetup {
    fn duplicate(&self) -> (r: Self) {
        BzlmodHttpArchiveSetup {
            repo_name: self.repo_name.duplicate(),
            url: self.url.duplicate(),
            sha256: self.sha256.duplicate(),
            strip_prefix: self.strip_prefix.duplicate(),
            archive_type: self.archive_type.duplicate(),
        }
    }
}

/// The Python toolchain hub.
#[derive(Debug, PartialEq, Eq)]
pub struct BzlmodPythonHubSetup {
}

/// The model of [`BzlmodPythonHubSetup`].
pub struct BzlmodPythonHubSetupModel {
}

impl DeepView for BzlmodPythonHubSetup {
    type V = BzlmodPythonHubSetupModel;

    open spec fn deep_view(&self) -> BzlmodPythonHubSetupModel {
        BzlmodPythonHubSetupModel {
        }
    }
}

impl Duplicate for BzlmodPythonHubSetup {
    fn duplicate(&self) -> (r: Self) {
        BzlmodPythonHubSetup {
        }
    }
}

/// A file that a repository rule wrote.
#[derive(Debug, PartialEq, Eq)]
pub struct BzlmodRepositoryRuleFile {
    pub path: String,
    pub content: String,
    pub executable: bool,
}

/// The model of [`BzlmodRepositoryRuleFile`].
pub struct BzlmodRepositoryRuleFileModel {
    pub path: Text,
    pub content: Text,
    pub executable: bool,
}

impl DeepView for BzlmodRepositoryRuleFile {
    type V = BzlmodRepositoryRuleFileModel;

    open spec fn deep_view(&self) -> BzlmodRepositoryRuleFileModel {
        BzlmodRepositoryRuleFileModel {
            path: self.path.deep_view(),
            content: self.content.deep_view(),
            executable: self.executable.deep_view(),
        }
    }
}

impl Duplicate for BzlmodRepositoryRuleFile {
    fn duplicate(&self) -> (r: Self) {
        BzlmodRepositoryRuleFile {
            path: self.path.duplicate(),
            content: self.content.duplicate(),
            executable: self.executable.duplicate(),
        }
    }
}

/// The files that a repository rule wrote.
#[derive(Debug, PartialEq, Eq)]
pub struct BzlmodRepositoryRuleSetup {
    pub files: Vec<BzlmodRepositoryRuleFile>,
    pub source_dir: Option<String>,
}

/// The model of [`BzlmodRepositoryRuleSetup`].
pub struct BzlmodRepositoryRuleSetupModel {
    pub files: Seq<BzlmodRepositoryRuleFileModel>,
    pub source_dir: Option<Text>,
}

impl DeepView for BzlmodRepositoryRuleSetup {
    type V = BzlmodRepositoryRuleSetupModel;

    open spec fn deep_view(&self) -> BzlmodRepositoryRuleSetupModel {
        BzlmodRepositoryRuleSetupModel {
            files: self.files.deep_view(),
            source_dir: self.source_dir.deep_view(),
        }
    }
}

impl Duplicate for BzlmodRepositoryRuleSetup {
    fn duplicate(&self) -> (r: Self) {
        BzlmodRepositoryRuleSetup {
            files: self.files.duplicate(),
            source_dir: self.source_dir.duplicate(),
        }
    }
}

/// A repository rule to run.
#[derive(Debug, PartialEq, Eq)]
pub struct BzlmodRepositoryRuleInvocationSetup {
    pub repo_name: String,
    pub rule_bzl_cell: String,
    pub rule_bzl_path: String,
    pub rule_bzl_build_file_cell: String,
    pub rule_name: String,
    pub attrs: Vec<(String, String)>,
}

/// The model of [`BzlmodRepositoryRuleInvocationSetup`].
pub struct BzlmodRepositoryRuleInvocationSetupModel {
    pub repo_name: Text,
    pub rule_bzl_cell: Text,
    pub rule_bzl_path: Text,
    pub rule_bzl_build_file_cell: Text,
    pub rule_name: Text,
    pub attrs: Seq<(Text, Text)>,
}

impl DeepView for BzlmodRepositoryRuleInvocationSetup {
    type V = BzlmodRepositoryRuleInvocationSetupModel;

    open spec fn deep_view(&self) -> BzlmodRepositoryRuleInvocationSetupModel {
        BzlmodRepositoryRuleInvocationSetupModel {
            repo_name: self.repo_name.deep_view(),
            rule_bzl_cell: self.rule_bzl_cell.deep_view(),
            rule_bzl_path: self.rule_bzl_path.deep_view(),
            rule_bzl_build_file_cell: self.rule_bzl_build_file_cell.deep_view(),
            rule_name: self.rule_name.deep_view(),
            attrs: self.attrs.deep_view(),
        }
    }
}

impl Duplicate for BzlmodRepositoryRuleInvocationSetup {
    fn duplicate(&self) -> (r: Self) {
        BzlmodRepositoryRuleInvocationSetup {
            repo_name: self.repo_name.duplicate(),
            rule_bzl_cell: self.rule_bzl_cell.duplicate(),
            rule_bzl_path: self.rule_bzl_path.duplicate(),
            rule_bzl_build_file_cell: self.rule_bzl_build_file_cell.duplicate(),
            rule_name: self.rule_name.duplicate(),
            attrs: self.attrs.duplicate(),
        }
    }
}

/// A repository that a module extension generates.
#[derive(Debug)]
pub struct BzlmodModuleExtensionRepoSetup {
    pub parent_canonical_repo_name: String,
    pub parent_is_root: bool,
    pub extension_bzl_file: String,
    pub extension_bzl_cell: String,
    pub extension_bzl_path: String,
    pub extension_unique_name: String,
    pub extension_name: String,
    pub repo_name: String,
    pub extension_usages_key: String,
    pub extension_usages_json: String,
}

/// The model of [`BzlmodModuleExtensionRepoSetup`].
pub struct BzlmodModuleExtensionRepoSetupModel {
    pub parent_canonical_repo_name: Text,
    pub parent_is_root: bool,
    pub extension_bzl_file: Text,
    pub extension_bzl_cell: Text,
    pub extension_bzl_path: Text,
    pub extension_unique_name: Text,
    pub extension_name: Text,
    pub repo_name: Text,
    pub extension_usages_key: Text,
    pub extension_usages_json: Text,
}

impl DeepView for BzlmodModuleExtensionRepoSetup {
    type V = BzlmodModuleExtensionRepoSetupModel;

    open spec fn deep_view(&self) -> BzlmodModuleExtensionRepoSetupModel {
        BzlmodModuleExtensionRepoSetupModel {
            parent_canonical_repo_name: self.parent_canonical_repo_name.deep_view(),
            parent_is_root: self.parent_is_root.deep_view(),
            extension_bzl_file: self.extension_bzl_file.deep_view(),
            extension_bzl_cell: self.extension_bzl_cell.deep_view(),
            extension_bzl_path: self.extension_bzl_path.deep_view(),
            extension_unique_name: self.extension_unique_name.deep_view(),
            extension_name: self.extension_name.deep_view(),
            repo_name: self.repo_name.deep_view(),
            extension_usages_key: self.extension_usages_key.deep_view(),
            extension_usages_json: self.extension_usages_json.deep_view(),
        }
    }
}

impl Duplicate for BzlmodModuleExtensionRepoSetup {
    fn duplicate(&self) -> (r: Self) {
        BzlmodModuleExtensionRepoSetup {
            parent_canonical_repo_name: self.parent_canonical_repo_name.duplicate(),
            parent_is_root: self.parent_is_root.duplicate(),
            extension_bzl_file: self.extension_bzl_file.duplicate(),
            extension_bzl_cell: self.extension_bzl_cell.duplicate(),
            extension_bzl_path: self.extension_bzl_path.duplicate(),
            extension_unique_name: self.extension_unique_name.duplicate(),
            extension_name: self.extension_name.duplicate(),
            repo_name: self.repo_name.duplicate(),
            extension_usages_key: self.extension_usages_key.duplicate(),
            extension_usages_json: self.extension_usages_json.duplicate(),
        }
    }
}

/// What generates the contents of a cell.
#[derive(Debug, PartialEq, Eq)]
pub enum BzlmodGeneratedCellGenerator {
    BazelFeaturesGlobals(BzlmodBazelFeaturesGlobalsSetup),
    BazelFeaturesVersion(BzlmodBazelFeaturesVersionSetup),
    HostPlatform(BzlmodHostPlatformSetup),
    CcAutoconfToolchains(BzlmodCcAutoconfToolchainsSetup),
    CcAutoconf(BzlmodCcAutoconfSetup),
    XcodeConfig(BzlmodXcodeConfigSetup),
    ShellConfig(BzlmodShellConfigSetup),
    HttpArchive(BzlmodHttpArchiveSetup),
    PythonHub(BzlmodPythonHubSetup),
    RepositoryRule(BzlmodRepositoryRuleSetup),
    RepositoryRuleInvocation(BzlmodRepositoryRuleInvocationSetup),
    ModuleExtensionRepo(BzlmodModuleExtensionRepoSetup),
}

/// The model of [`BzlmodGeneratedCellGenerator`].
pub enum BzlmodGeneratedCellGeneratorModel {
    BazelFeaturesGlobals(BzlmodBazelFeaturesGlobalsSetupModel),
    BazelFeaturesVersion(BzlmodBazelFeaturesVersionSetupModel),
    HostPlatform(BzlmodHostPlatformSetupModel),
    CcAutoconfToolchains(BzlmodCcAutoconfToolchainsSetupModel),
    CcAutoconf(BzlmodCcAutoconfSetupModel),
    XcodeConfig(BzlmodXcodeConfigSetupModel),
    ShellConfig(BzlmodShellConfigSetupModel),
    HttpArchive(BzlmodHttpArchiveSetupModel),
    PythonHub(BzlmodPythonHubSetupModel),
    RepositoryRule(BzlmodRepositoryRuleSetupModel),
    RepositoryRuleInvocation(BzlmodRepositoryRuleInvocationSetupModel),
    ModuleExtensionRepo(BzlmodModuleExtensionRepoSetupModel),
}

impl DeepView for BzlmodGeneratedCellGenerator {
    type V = BzlmodGeneratedCellGeneratorModel;

    open spec fn deep_view(&self) -> BzlmodGeneratedCellGeneratorModel {
        match self {
            BzlmodGeneratedCellGenerator::BazelFeaturesGlobals(s) => {
                BzlmodGeneratedCellGeneratorModel::BazelFeaturesGlobals(s.deep_view())
            },
            BzlmodGeneratedCellGenerator::BazelFeaturesVersion(s) => {
                BzlmodGeneratedCellGeneratorModel::BazelFeaturesVersion(s.deep_view())
            },
            BzlmodGeneratedCellGenerator::HostPlatform(s) => {
                BzlmodGeneratedCellGeneratorModel::HostPlatform(s.deep_view())
            },
            BzlmodGeneratedCellGenerator::CcAutoconfToolchains(s) => {
                BzlmodGeneratedCellGeneratorModel::CcAutoconfToolchains(s.deep_view())
            },
            BzlmodGeneratedCellGenerator::CcAutoconf(s) => {
                BzlmodGeneratedCellGeneratorModel::CcAutoconf(s.deep_view())
            },
            BzlmodGeneratedCellGenerator::XcodeConfig(s) => {
                BzlmodGeneratedCellGeneratorModel::XcodeConfig(s.deep_view())
            },
            BzlmodGeneratedCellGenerator::ShellConfig(s) => {
                BzlmodGeneratedCellGeneratorModel::ShellConfig(s.deep_view())
            },
            BzlmodGeneratedCellGenerator::HttpArchive(s) => {
                BzlmodGeneratedCellGeneratorModel::HttpArchive(s.deep_view())
            },
            BzlmodGeneratedCellGenerator::PythonHub(s) => {
                BzlmodGeneratedCellGeneratorModel::PythonHub(s.deep_view())
            },
            BzlmodGeneratedCellGenerator::RepositoryRule(s) => {
                BzlmodGeneratedCellGeneratorModel::RepositoryRule(s.deep_view())
            },
            BzlmodGeneratedCellGenerator::RepositoryRuleInvocation(s) => {
                BzlmodGeneratedCellGeneratorModel::RepositoryRuleInvocation(s.deep_view())
            },
            BzlmodGeneratedCellGenerator::ModuleExtensionRepo(s) => {
                BzlmodGeneratedCellGeneratorModel::ModuleExtensionRepo(s.deep_view())
            },
        }
    }
}

impl Duplicate for BzlmodGeneratedCellGenerator {
    fn duplicate(&self) -> (r: Self) {
        match self {
            BzlmodGeneratedCellGenerator::BazelFeaturesGlobals(s) => {
                BzlmodGeneratedCellGenerator::BazelFeaturesGlobals(s.duplicate())
            },
            BzlmodGeneratedCellGenerator::BazelFeaturesVersion(s) => {
                BzlmodGeneratedCellGenerator::BazelFeaturesVersion(s.duplicate())
            },
            BzlmodGeneratedCellGenerator::HostPlatform(s) => {
                BzlmodGeneratedCellGenerator::HostPlatform(s.duplicate())
            },
            BzlmodGeneratedCellGenerator::CcAutoconfToolchains(s) => {
                BzlmodGeneratedCellGenerator::CcAutoconfToolchains(s.duplicate())
            },
            BzlmodGeneratedCellGenerator::CcAutoconf(s) => {
                BzlmodGeneratedCellGenerator::CcAutoconf(s.duplicate())
            },
            BzlmodGeneratedCellGenerator::XcodeConfig(s) => {
                BzlmodGeneratedCellGenerator::XcodeConfig(s.duplicate())
            },
            BzlmodGeneratedCellGenerator::ShellConfig(s) => {
                BzlmodGeneratedCellGenerator::ShellConfig(s.duplicate())
            },
            BzlmodGeneratedCellGenerator::HttpArchive(s) => {
                BzlmodGeneratedCellGenerator::HttpArchive(s.duplicate())
            },
            BzlmodGeneratedCellGenerator::PythonHub(s) => {
                BzlmodGeneratedCellGenerator::PythonHub(s.duplicate())
            },
            BzlmodGeneratedCellGenerator::RepositoryRule(s) => {
                BzlmodGeneratedCellGenerator::RepositoryRule(s.duplicate())
            },
            BzlmodGeneratedCellGenerator::RepositoryRuleInvocation(s) => {
                BzlmodGeneratedCellGenerator::RepositoryRuleInvocation(s.duplicate())
            },
            BzlmodGeneratedCellGenerator::ModuleExtensionRepo(s) => {
                BzlmodGeneratedCellGenerator::ModuleExtensionRepo(s.duplicate())
            },
        }
    }
}

/// A cell whose contents are generated.
#[derive(Debug, PartialEq, Eq)]
pub struct BzlmodGeneratedCellSetup {
    pub canonical_repo_name: String,
    pub generator: BzlmodGeneratedCellGenerator,
}

/// The model of [`BzlmodGeneratedCellSetup`].
pub struct BzlmodGeneratedCellSetupModel {
    pub canonical_repo_name: Text,
    pub generator: BzlmodGeneratedCellGeneratorModel,
}

impl DeepView for BzlmodGeneratedCellSetup {
    type V = BzlmodGeneratedCellSetupModel;

    open spec fn deep_view(&self) -> BzlmodGeneratedCellSetupModel {
        BzlmodGeneratedCellSetupModel {
            canonical_repo_name: self.canonical_repo_name.deep_view(),
            generator: self.generator.deep_view(),
        }
    }
}

impl Duplicate for BzlmodGeneratedCellSetup {
    fn duplicate(&self) -> (r: Self) {
        BzlmodGeneratedCellSetup {
            canonical_repo_name: self.canonical_repo_name.duplicate(),
            generator: self.generator.duplicate(),
        }
    }
}

/// A cell that holds a commit of a Git repository; the commit is a valid hash.
#[derive(Debug, PartialEq, Eq)]
pub struct GitCellSetup {
    pub git_origin: String,
    pub commit: String,
    pub object_format: Option<GitObjectFormat>,
}

/// The model of [`GitCellSetup`].
pub struct GitCellSetupModel {
    pub git_origin: Text,
    pub commit: Text,
    pub object_format: Option<GitObjectFormat>,
}

impl DeepView for GitCellSetup {
    type V = GitCellSetupModel;

    open spec fn deep_view(&self) -> GitCellSetupModel {
        GitCellSetupModel {
            git_origin: self.git_origin.deep_view(),
            commit: self.commit.deep_view(),
            object_format: self.object_format.deep_view(),
        }
    }
}

impl Duplicate for GitCellSetup {
    fn duplicate(&self) -> (r: Self) {
        GitCellSetup {
            git_origin: self.git_origin.duplicate(),
            commit: self.commit.duplicate(),
            object_format: self.object_format.duplicate(),
        }
    }
}

/// Where a cell outside the project comes from.
#[derive(Debug, PartialEq, Eq)]
pub enum ExternalCellOrigin {
    Bundled(String),
    Git(GitCellSetup),
    Bzlmod(BzlmodCellSetup),
    BzlmodGenerated(BzlmodGeneratedCellSetup),
}

/// The model of [`ExternalCellOrigin`].
pub enum ExternalCellOriginModel {
    Bundled(Text),
    Git(GitCellSetupModel),
    Bzlmod(BzlmodCellSetupModel),
    BzlmodGenerated(BzlmodGeneratedCellSetupModel),
}

impl DeepView for ExternalCellOrigin {
    type V = ExternalCellOriginModel;

    open spec fn deep_view(&self) -> ExternalCellOriginModel {
        match self {
            ExternalCellOrigin::Bundled(s) => ExternalCellOriginModel::Bundled(s.deep_view()),
            ExternalCellOrigin::Git(s) => ExternalCellOriginModel::Git(s.deep_view()),
            ExternalCellOrigin::Bzlmod(s) => ExternalCellOriginModel::Bzlmod(s.deep_view()),
            ExternalCellOrigin::BzlmodGenerated(s) => {
                ExternalCellOriginModel::BzlmodGenerated(s.deep_view())
            },
        }
    }
}

impl Duplicate for ExternalCellOrigin {
    fn duplicate(&self) -> (r: Self) {
        match self {
            ExternalCellOrigin::Bundled(s) => ExternalCellOrigin::Bundled(s.duplicate()),
            ExternalCellOrigin::Git(s) => ExternalCellOrigin::Git(s.duplicate()),
            ExternalCellOrigin::Bzlmod(s) => ExternalCellOrigin::Bzlmod(s.duplicate()),
            ExternalCellOrigin::BzlmodGenerated(s) => {
                ExternalCellOrigin::BzlmodGenerated(s.duplicate())
            },
        }
    }
}

/// The BLAKE3 hash of a text's UTF-8 bytes, in hexadecimal.
pub uninterp spec fn blake3_hex(text: Seq<char>) -> Seq<char>;

/// `blake3::hash` of the text's bytes, and `to_hex` of the hash: the result
/// depends on the text alone, and is 64 hexadecimal digits.
#[verifier::external_body]
fn blake3_hex_of(text: &str) -> (r: String)
    ensures
        r@ == blake3_hex(text@),
        is_hex_digest(r@, 64),
{
    blake3::hash(text.as_bytes()).to_hex().to_string()
}

impl BzlmodModuleExtensionRepoSetup {
    /// The key that the usages of an extension go by.
    pub fn extension_usages_key_from_json(extension_usages_json: &str) -> (r: String)
        ensures
            r@ == blake3_hex(extension_usages_json@),
            is_hex_digest(r@, 64),
    {
        blake3_hex_of(extension_usages_json)
    }
}

/// Two repositories count as the same: the key stands for the usages.
pub open spec fn same_extension_repo(
    a: BzlmodModuleExtensionRepoSetupModel,
    b: BzlmodModuleExtensionRepoSetupModel,
) -> bool {
    a.parent_canonical_repo_name == b.parent_canonical_repo_name && a.parent_is_root
        == b.parent_is_root && a.extension_bzl_file == b.extension_bzl_file && a.extension_bzl_cell
        == b.extension_bzl_cell && a.extension_bzl_path == b.extension_bzl_path
        && a.extension_unique_name == b.extension_unique_name && a.extension_name
        == b.extension_name && a.repo_name == b.repo_name && a.extension_usages_key
        == b.extension_usages_key
}

impl PartialEq for BzlmodModuleExtensionRepoSetup {
    fn eq(&self, other: &Self) -> (r: bool) {
        same(
            self.parent_canonical_repo_name.as_str(),
            other.parent_canonical_repo_name.as_str(),
        ) && self.parent_is_root == other.parent_is_root && same(
            self.extension_bzl_file.as_str(),
            other.extension_bzl_file.as_str(),
        ) && same(self.extension_bzl_cell.as_str(), other.extension_bzl_cell.as_str()) && same(
            self.extension_bzl_path.as_str(),
            other.extension_bzl_path.as_str(),
        ) && same(self.extension_unique_name.as_str(), other.extension_unique_name.as_str())
            && same(self.extension_name.as_str(), other.extension_name.as_str()) && same(
            self.repo_name.as_str(),
            other.repo_name.as_str(),
        ) && same(self.extension_usages_key.as_str(), other.extension_usages_key.as_str())
    }
}

impl vstd::std_specs::cmp::PartialEqSpecImpl for BzlmodModuleExtensionRepoSetup {
    open spec fn obeys_eq_spec() -> bool {
        true
    }

    open spec fn eq_spec(&self, other: &Self) -> bool {
        same_extension_repo(self.deep_view(), other.deep_view())
    }
}

impl Eq for BzlmodModuleExtensionRepoSetup {

}

impl ExternalCellOriginModel {
    /// The origin in words.
    pub open spec fn text(self) -> Text {
        match self {
            ExternalCellOriginModel::Bundled(cell) => "bundled("@ + cell + ")"@,
            ExternalCellOriginModel::Git(git) => "git("@ + git.git_origin + ", "@ + git.commit
                + ")"@,
            ExternalCellOriginModel::Bzlmod(module) => "bzlmod("@ + module.module_name + "@"@
                + module.version + ")"@,
            ExternalCellOriginModel::BzlmodGenerated(generated) => "bzlmod-generated("@
                + generated.canonical_repo_name + ")"@,
        }
    }
}

impl ExternalCellOrigin {
    /// The origin in words.
    pub fn display(&self) -> (r: String)
        ensures
            r@ == self.deep_view().text(),
    {
        match self {
            ExternalCellOrigin::Bundled(cell) => concat3("bundled(", cell.as_str(), ")"),
            ExternalCellOrigin::Git(git) => {
                let mut text = concat3("git(", git.git_origin.as_str(), ", ");
                text.append(git.commit.as_str());
                text.append(")");
                text
            },
            ExternalCellOrigin::Bzlmod(module) => {
                let mut text = concat3("bzlmod(", module.module_name.as_str(), "@");
                text.append(module.version.as_str());
                text.append(")");
                text
            },
            ExternalCellOrigin::BzlmodGenerated(generated) => concat3(
                "bzlmod-generated(",
                generated.canonical_repo_name.as_str(),
                ")",
            ),
        }
    }
}

/// What is known of external cells, by cell name: repository names, aliases and
/// origins.
#[derive(Debug, PartialEq, Eq)]
pub struct ExternalCellRegistry {
    pub canonical_repo_names: KeyMap<String, String>,
    pub cell_aliases: KeyMap<String, Vec<(String, String)>>,
    pub origins: KeyMap<String, ExternalCellOrigin>,
}

impl ExternalCellRegistry {
    /// Each map is in the order of its keys.
    pub open spec fn wf(&self) -> bool {
        &&& sorted_items::<String, Text>(self.canonical_repo_names.deep_view())
        &&& sorted_items::<String, Seq<(Text, Text)>>(self.cell_aliases.deep_view())
        &&& sorted_items::<String, ExternalCellOriginModel>(self.origins.deep_view())
    }

    /// A registry that knows nothing.
    pub fn new() -> (r: Self)
        ensures
            r.wf(),
            r.canonical_repo_names.deep_view() == Seq::<(Text, Text)>::empty(),
            r.cell_aliases.deep_view() == Seq::<(Text, Seq<(Text, Text)>)>::empty(),
            r.origins.deep_view() == Seq::<(Text, ExternalCellOriginModel)>::empty(),
    {
        ExternalCellRegistry {
            canonical_repo_names: KeyMap::new(),
            cell_aliases: KeyMap::new(),
            origins: KeyMap::new(),
        }
    }
}

/// Registers a repository's name for its own cell.
pub fn register_bzlmod_cell_canonical_repo_name(
    registry: &mut ExternalCellRegistry,
    canonical_repo_name: &str,
)
    ensures
        final(registry).canonical_repo_names.deep_view() == put::<String, Text>(
            old(registry).canonical_repo_names.deep_view(),
            cell_name_of(canonical_repo_name@),
            canonical_repo_name@,
        ),
        final(registry).cell_aliases == old(registry).cell_aliases,
        final(registry).origins == old(registry).origins,
        old(registry).wf() ==> final(registry).wf(),
{
    let cell_name = bzlmod_cell_name(canonical_repo_name);
    register_bzlmod_cell_canonical_repo_name_for_cell(
        registry,
        cell_name.as_str(),
        canonical_repo_name,
    );
}

/// Registers the repository name of a cell.
pub fn register_bzlmod_cell_canonical_repo_name_for_cell(
    registry: &mut ExternalCellRegistry,
    cell_name: &str,
    canonical_repo_name: &str,
)
    ensures
        final(registry).canonical_repo_names.deep_view() == put::<String, Text>(
            old(registry).canonical_repo_names.deep_view(),
            cell_name@,
            canonical_repo_name@,
        ),
        final(registry).cell_aliases == old(registry).cell_aliases,
        final(registry).origins == old(registry).origins,
        old(registry).wf() ==> final(registry).wf(),
{
    registry.canonical_repo_names.insert(cell_name.to_owned(), canonical_repo_name.to_owned());
}

/// The repository name registered for a cell.
pub fn bzlmod_canonical_repo_name_for_cell(registry: &ExternalCellRegistry, cell_name: &str) -> (r:
    Option<String>)
    ensures
        r.deep_view() == lookup(registry.canonical_repo_names.deep_view(), cell_name@),
{
    match registry.canonical_repo_names.get(&cell_name.to_owned()) {
        Some(name) => Some(name.clone()),
        None => None,
    }
}

/// Registers the aliases of a cell.
pub fn register_bzlmod_cell_aliases(
    registry: &mut ExternalCellRegistry,
    cell_name: &str,
    aliases: Vec<(String, String)>,
)
    ensures
        final(registry).cell_aliases.deep_view() == put::<String, Seq<(Text, Text)>>(
            old(registry).cell_aliases.deep_view(),
            cell_name@,
            aliases.deep_view(),
        ),
        final(registry).canonical_repo_names == old(registry).canonical_repo_names,
        final(registry).origins == old(registry).origins,
        old(registry).wf() ==> final(registry).wf(),
{
    registry.cell_aliases.insert(cell_name.to_owned(), aliases);
}

/// Registers the aliases of a cell.
pub fn register_bzlmod_cell_aliases_from_refs(
    registry: &mut ExternalCellRegistry,
    cell_name: &str,
    aliases: &Vec<(&str, &str)>,
)
    ensures
        final(registry).cell_aliases.deep_view() == put::<String, Seq<(Text, Text)>>(
            old(registry).cell_aliases.deep_view(),
            cell_name@,
            aliases.deep_view(),
        ),
        final(registry).canonical_repo_names == old(registry).canonical_repo_names,
        final(registry).origins == old(registry).origins,
        old(registry).wf() ==> final(registry).wf(),
{
    let mut owned: Vec<(String, String)> = Vec::new();
    let mut i: usize = 0;
    while i < aliases.len()
        invariant
            0 <= i <= aliases@.len(),
            owned.deep_view() =~= aliases.deep_view().take(i as int),
        decreases aliases.len() - i,
    {
        let ghost before = owned.deep_view();
        owned.push((aliases[i].0.to_owned(), aliases[i].1.to_owned()));
        assert(owned.deep_view() =~= before.push(aliases.deep_view()[i as int]));
        i += 1;
    }
    assert(aliases.deep_view().take(i as int) =~= aliases.deep_view());
    registry.cell_aliases.insert(cell_name.to_owned(), owned);
}

/// The aliases registered for a cell; none where there are none.
pub fn bzlmod_cell_aliases_for_cell(registry: &ExternalCellRegistry, cell_name: &str) -> (r: Vec<
    (String, String),
>)
    ensures
        r.deep_view() == (match lookup(registry.cell_aliases.deep_view(), cell_name@) {
            Some(aliases) => aliases,
            None => seq![],
        }),
{
    match registry.cell_aliases.get(&cell_name.to_owned()) {
        Some(aliases) => aliases.duplicate(),
        None => {
            let none: Vec<(String, String)> = Vec::new();
            assert(none.deep_view() =~= seq![]);
            none
        },
    }
}

/// The aliases of all cells, in the order of cell names.
pub fn bzlmod_all_cell_aliases(registry: &ExternalCellRegistry) -> (r: Vec<
    (String, Vec<(String, String)>),
>)
    ensures
        r.deep_view() == registry.cell_aliases.deep_view(),
        registry.wf() ==> sorted_items::<String, Seq<(Text, Text)>>(r.deep_view()),
{
    registry.cell_aliases.entries.duplicate()
}

/// Registers where a cell comes from.
pub fn register_external_cell_origin(
    registry: &mut ExternalCellRegistry,
    cell_name: &str,
    origin: ExternalCellOrigin,
)
    ensures
        final(registry).origins.deep_view() == put::<String, ExternalCellOriginModel>(
            old(registry).origins.deep_view(),
            cell_name@,
            origin.deep_view(),
        ),
        final(registry).canonical_repo_names == old(registry).canonical_repo_names,
        final(registry).cell_aliases == old(registry).cell_aliases,
        old(registry).wf() ==> final(registry).wf(),
{
    registry.origins.insert(cell_name.to_owned(), origin);
}

/// Where a cell comes from.
pub fn external_cell_origin_for_cell(registry: &ExternalCellRegistry, cell_name: &str) -> (r:
    Option<ExternalCellOrigin>)
    ensures
        r.deep_view() == lookup(registry.origins.deep_view(), cell_name@),
{
    match registry.origins.get(&cell_name.to_owned()) {
        Some(origin) => Some(origin.duplicate()),
        None => None,
    }
}

/// The repository that is registered under its own cell name reads back, and every
/// other cell keeps its repository.
pub proof fn law_repository_reads_back(
    names: Seq<(Text, Text)>,
    canonical_repo_name: Text,
    cell_name: Text,
)
    requires
        sorted_items::<String, Text>(names),
    ensures
        ({
            let own = cell_name_of(canonical_repo_name);
            let after = put::<String, Text>(names, own, canonical_repo_name);
            lookup(after, cell_name) == (if cell_name == own {
                Some(canonical_repo_name)
            } else {
                lookup(names, cell_name)
            })
        }),
{
    law_lookup_after_put::<String, Text>(
        names,
        cell_name_of(canonical_repo_name),
        canonical_repo_name,
        cell_name,
    );
}

/// The origin that is registered of a cell reads back, and every other cell keeps
/// its origin.
pub proof fn law_origin_reads_back(
    origins: Seq<(Text, ExternalCellOriginModel)>,
    cell: Text,
    origin: ExternalCellOriginModel,
    other: Text,
)
    requires
        sorted_items::<String, ExternalCellOriginModel>(origins),
    ensures
        lookup(put::<String, ExternalCellOriginModel>(origins, cell, origin), other) == (if other
            == cell {
            Some(origin)
        } else {
            lookup(origins, other)
        }),
{
    law_lookup_after_put::<String, ExternalCellOriginModel>(origins, cell, origin, other);
}

} // verus!
