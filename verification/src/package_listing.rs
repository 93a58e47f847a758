//! The files, directories and packages below a package.

use starlark_map::sorted_set::SortedSet;
use starlark_map::sorted_vec::SortedVec;
use vstd::prelude::*;
use vstd::string::*;
use crate::external::utf8_len;
use crate::listing_strategy::{PackageListingStrategy, Strategy, lies_in, path_lies_in};
use crate::ordered::{Duplicate, KeyMap, lookup, sorted_set_of};
use crate::paths::{below, join_below, parent_of, parent_path};
use crate::sorted_lists::{
    in_order, law_sorted_list_set, sorted_set_contains, sorted_set_entries, sorted_set_from,
    sorted_set_items, sorted_vec_entries, sorted_vec_from, sorted_vec_items,
};
use crate::text::{
    Text, chars_of, concat, concat3, join, join_of, rsplit_once, rsplit_once_of, same, text_from,
    text_of,
};

verus! {

/// A path in a cell.
#[derive(Debug, PartialEq, Eq)]
pub struct CellPath {
    pub cell: String,
    pub path: String,
}

/// The model of [`CellPath`].
pub struct CellPathModel {
    pub cell: Text,
    pub path: Text,
}

impl DeepView for CellPath {
    type V = CellPathModel;

    open spec fn deep_view(&self) -> CellPathModel {
        CellPathModel { cell: self.cell@, path: self.path@ }
    }
}

impl Duplicate for CellPath {
    fn duplicate(&self) -> (r: Self) {
        CellPath { cell: self.cell.clone(), path: self.path.clone() }
    }
}

impl CellPathModel {
    /// The path as a text.
    pub open spec fn text(self) -> Text {
        self.cell + "//"@ + self.path
    }

    /// The path below this one.
    pub open spec fn child(self, path: Text) -> CellPathModel {
        CellPathModel { cell: self.cell, path: below(self.path, path) }
    }
}

impl CellPath {
    /// The path as a text.
    pub fn display(&self) -> (r: String)
        ensures
            r@ == self.deep_view().text(),
    {
        concat3(self.cell.as_str(), "//", self.path.as_str())
    }

    /// The path below this one.
    pub fn join(&self, path: &str) -> (r: CellPath)
        ensures
            r.deep_view() == self.deep_view().child(path@),
    {
        CellPath { cell: self.cell.clone(), path: join_below(self.path.as_str(), path) }
    }
}

/// What might have been meant by a directory that does not exist.
#[derive(Debug, PartialEq, Eq)]
pub enum DirectoryDoesNotExistSuggestion {
    Cell(Vec<String>),
    Typo(String),
    NoSuggestion,
}

/// The model of [`DirectoryDoesNotExistSuggestion`].
pub enum Suggestion {
    Cell(Seq<Text>),
    Typo(Text),
    NoSuggestion,
}

impl DeepView for DirectoryDoesNotExistSuggestion {
    type V = Suggestion;

    open spec fn deep_view(&self) -> Suggestion {
        match self {
            DirectoryDoesNotExistSuggestion::Cell(cells) => Suggestion::Cell(cells.deep_view()),
            DirectoryDoesNotExistSuggestion::Typo(name) => Suggestion::Typo(name@),
            DirectoryDoesNotExistSuggestion::NoSuggestion => Suggestion::NoSuggestion,
        }
    }
}

impl Duplicate for DirectoryDoesNotExistSuggestion {
    fn duplicate(&self) -> (r: Self) {
        match self {
            DirectoryDoesNotExistSuggestion::Cell(cells) => DirectoryDoesNotExistSuggestion::Cell(
                cells.duplicate(),
            ),
            DirectoryDoesNotExistSuggestion::Typo(name) => DirectoryDoesNotExistSuggestion::Typo(
                name.clone(),
            ),
            DirectoryDoesNotExistSuggestion::NoSuggestion => {
                DirectoryDoesNotExistSuggestion::NoSuggestion
            },
        }
    }
}

/// Why a directory is ignored: a pattern, or another cell that it belongs to.
#[derive(Debug, PartialEq, Eq)]
pub enum FileIgnoreReason {
    IgnoredByPattern(String),
    IgnoredByCell(String),
}

/// The model of [`FileIgnoreReason`].
pub enum IgnoreReason {
    IgnoredByPattern(Text),
    IgnoredByCell(Text),
}

impl DeepView for FileIgnoreReason {
    type V = IgnoreReason;

    open spec fn deep_view(&self) -> IgnoreReason {
        match self {
            FileIgnoreReason::IgnoredByPattern(pattern) => IgnoreReason::IgnoredByPattern(pattern@),
            FileIgnoreReason::IgnoredByCell(cell) => IgnoreReason::IgnoredByCell(cell@),
        }
    }
}

impl Duplicate for FileIgnoreReason {
    fn duplicate(&self) -> (r: Self) {
        match self {
            FileIgnoreReason::IgnoredByPattern(pattern) => FileIgnoreReason::IgnoredByPattern(
                pattern.clone(),
            ),
            FileIgnoreReason::IgnoredByCell(cell) => FileIgnoreReason::IgnoredByCell(cell.clone()),
        }
    }
}

/// Why a directory could not be read.
#[derive(Debug, PartialEq, Eq)]
pub enum ReadDirError {
    DirectoryDoesNotExist(CellPath, DirectoryDoesNotExistSuggestion),
    DirectoryIsIgnored(CellPath, FileIgnoreReason),
    NotADirectory(CellPath, String),
    Error(String),
}

/// The model of [`ReadDirError`].
pub enum ReadDirErrorModel {
    DirectoryDoesNotExist(CellPathModel, Suggestion),
    DirectoryIsIgnored(CellPathModel, IgnoreReason),
    NotADirectory(CellPathModel, Text),
    Error(Text),
}

impl DeepView for ReadDirError {
    type V = ReadDirErrorModel;

    open spec fn deep_view(&self) -> ReadDirErrorModel {
        match self {
            ReadDirError::DirectoryDoesNotExist(path, suggestion) => {
                ReadDirErrorModel::DirectoryDoesNotExist(path.deep_view(), suggestion.deep_view())
            },
            ReadDirError::DirectoryIsIgnored(path, reason) => ReadDirErrorModel::DirectoryIsIgnored(
                path.deep_view(),
                reason.deep_view(),
            ),
            ReadDirError::NotADirectory(path, node_type) => ReadDirErrorModel::NotADirectory(
                path.deep_view(),
                node_type@,
            ),
            ReadDirError::Error(e) => ReadDirErrorModel::Error(e@),
        }
    }
}

/// Why the listing of a package could not be gathered.
#[derive(Debug, PartialEq, Eq)]
pub enum GatherPackageListingError {
    NoBuildFile { package: CellPath, candidates: Vec<String> },
    DirectoryDoesNotExist {
        package: CellPath,
        expected_path: CellPath,
        suggestion: DirectoryDoesNotExistSuggestion,
    },
    DirectoryIsIgnored { package: CellPath, path: CellPath, ignore_reason: FileIgnoreReason },
    NotADirectory { package: CellPath, path: CellPath, node_type: String },
    Error { package: CellPath, error: String },
}

/// The model of [`GatherPackageListingError`].
pub enum GatherError {
    NoBuildFile(CellPathModel, Seq<Text>),
    DirectoryDoesNotExist(CellPathModel, CellPathModel, Suggestion),
    DirectoryIsIgnored(CellPathModel, CellPathModel, IgnoreReason),
    NotADirectory(CellPathModel, CellPathModel, Text),
    Error(CellPathModel, Text),
}

impl DeepView for GatherPackageListingError {
    type V = GatherError;

    open spec fn deep_view(&self) -> GatherError {
        match self {
            GatherPackageListingError::NoBuildFile { package, candidates } => {
                GatherError::NoBuildFile(package.deep_view(), candidates.deep_view())
            },
            GatherPackageListingError::DirectoryDoesNotExist {
                package,
                expected_path,
                suggestion,
            } => GatherError::DirectoryDoesNotExist(
                package.deep_view(),
                expected_path.deep_view(),
                suggestion.deep_view(),
            ),
            GatherPackageListingError::DirectoryIsIgnored { package, path, ignore_reason } => {
                GatherError::DirectoryIsIgnored(
                    package.deep_view(),
                    path.deep_view(),
                    ignore_reason.deep_view(),
                )
            },
            GatherPackageListingError::NotADirectory { package, path, node_type } => {
                GatherError::NotADirectory(package.deep_view(), path.deep_view(), node_type@)
            },
            GatherPackageListingError::Error { package, error } => GatherError::Error(
                package.deep_view(),
                error@,
            ),
        }
    }
}

/// What a directory that could not be read makes of a package's listing.
pub open spec fn gather_error(package: CellPathModel, e: ReadDirErrorModel) -> GatherError {
    match e {
        ReadDirErrorModel::DirectoryDoesNotExist(path, suggestion) => {
            GatherError::DirectoryDoesNotExist(package, path, suggestion)
        },
        ReadDirErrorModel::DirectoryIsIgnored(path, reason) => GatherError::DirectoryIsIgnored(
            package,
            path,
            reason,
        ),
        ReadDirErrorModel::NotADirectory(path, node_type) => GatherError::NotADirectory(
            package,
            path,
            node_type,
        ),
        ReadDirErrorModel::Error(e) => GatherError::Error(package, e),
    }
}

impl GatherPackageListingError {
    /// An error of any other kind.
    pub fn error(package_path: &CellPath, err: String) -> (r: GatherPackageListingError)
        ensures
            r.deep_view() == GatherError::Error(package_path.deep_view(), err@),
    {
        GatherPackageListingError::Error { package: package_path.duplicate(), error: err }
    }

    /// A directory that could not be read.
    pub fn from_read_dir(package_path: &CellPath, err: &ReadDirError) -> (r:
        GatherPackageListingError)
        ensures
            r.deep_view() == gather_error(package_path.deep_view(), err.deep_view()),
    {
        let package = package_path.duplicate();
        match err {
            ReadDirError::DirectoryDoesNotExist(path, suggestion) => {
                GatherPackageListingError::DirectoryDoesNotExist {
                    package,
                    expected_path: path.duplicate(),
                    suggestion: suggestion.duplicate(),
                }
            },
            ReadDirError::DirectoryIsIgnored(path, reason) => {
                GatherPackageListingError::DirectoryIsIgnored {
                    package,
                    path: path.duplicate(),
                    ignore_reason: reason.duplicate(),
                }
            },
            ReadDirError::NotADirectory(path, node_type) => {
                GatherPackageListingError::NotADirectory {
                    package,
                    path: path.duplicate(),
                    node_type: node_type.clone(),
                }
            },
            ReadDirError::Error(e) => GatherPackageListingError::Error {
                package,
                error: e.clone(),
            },
        }
    }

    /// A package without a build file.
    pub fn no_build_file(package_path: &CellPath, candidates: &Vec<String>) -> (r:
        GatherPackageListingError)
        ensures
            r.deep_view() == GatherError::NoBuildFile(
                package_path.deep_view(),
                candidates.deep_view(),
            ),
    {
        GatherPackageListingError::NoBuildFile {
            package: package_path.duplicate(),
            candidates: candidates.duplicate(),
        }
    }
}

/// The number of bytes that a text takes up.
pub open spec fn byte_len(s: Text) -> nat
    decreases s.len(),
{
    if s.len() == 0 {
        0
    } else {
        byte_len(s.drop_last()) + utf8_len(s.last())
    }
}

/// A mark under a text that starts behind an opening of nine columns: an arrow
/// at each end and dashes between them.
pub open spec fn underline(s: Text) -> Text {
    let dashes = if byte_len(s) < 2 {
        0nat
    } else {
        (byte_len(s) - 2) as nat
    };
    "         ^"@ + Seq::new(dashes, |i: int| '-') + "^"@
}

fn underline_of(s: &str) -> (r: String)
    ensures
        r@ == underline(s@),
{
    let chars = chars_of(s);
    let mut out: Vec<char> = Vec::new();
    let mut left: usize = 2;
    let mut i: usize = 0;
    let ghost all = s@;
    assert(s@.take(0).len() == 0);
    while i < chars.len()
        invariant
            all == s@,
            chars@ == s@,
            0 <= i <= chars@.len(),
            0 <= left <= 2,
            left == 2 - byte_len(all.take(i as int)) || (left == 0 && byte_len(all.take(i as int))
                >= 2),
            out@.len() == byte_len(all.take(i as int)) - (2 - left),
            forall|j: int| 0 <= j < out@.len() ==> out@[j] == '-',
        decreases chars.len() - i,
    {
        proof {
            let t = all.take(i + 1);
            assert(t.drop_last() =~= all.take(i as int));
            assert(t.last() == all[i as int]);
        }
        let c = chars[i];
        let n: usize = if (c as u32) < 0x80 {
            1
        } else if (c as u32) < 0x800 {
            2
        } else if (c as u32) < 0x10000 {
            3
        } else {
            4
        };
        assert(n == utf8_len(c));
        let mut j: usize = 0;
        let ghost start = byte_len(all.take(i as int));
        while j < n
            invariant
                0 <= j <= n,
                0 <= left <= 2,
                left == 2 - (start + j) || (left == 0 && start + j >= 2),
                out@.len() == start + j - (2 - left),
                forall|k: int| 0 <= k < out@.len() ==> out@[k] == '-',
            decreases n - j,
        {
            if left > 0 {
                left -= 1;
            } else {
                out.push('-');
            }
            j += 1;
        }
        i += 1;
    }
    assert(all.take(i as int) =~= all);
    let dashes = text_of(&out);
    assert(out@ =~= Seq::new(out@.len(), |i: int| '-'));
    concat3("         ^", dashes.as_str(), "^")
}

/// What stands behind the last dot of a file name, but for a dot in front.
pub open spec fn extension(name: Text) -> Option<Text> {
    match rsplit_once(name, "."@) {
        Some((stem, ext)) => if stem.len() == 0 {
            None
        } else {
            Some(ext)
        },
        None => None,
    }
}

/// The first candidate from `i` on that is not a second version of another.
pub open spec fn primary_candidate(candidates: Seq<Text>, i: int) -> Option<Text>
    decreases candidates.len() - i,
{
    if i < 0 || i >= candidates.len() {
        None
    } else if extension(candidates[i]) != Some("v2"@) {
        Some(candidates[i])
    } else {
        primary_candidate(candidates, i + 1)
    }
}

/// The candidates other than one, in quotes.
pub open spec fn alternatives(candidates: Seq<Text>, primary: Text) -> Seq<Text>
    decreases candidates.len(),
{
    if candidates.len() == 0 {
        seq![]
    } else if candidates.last() == primary {
        alternatives(candidates.drop_last(), primary)
    } else {
        alternatives(candidates.drop_last(), primary).push("`"@ + candidates.last() + "`"@)
    }
}

/// Which build files are missing.
pub open spec fn missing_files(candidates: Seq<Text>) -> Text {
    let primary = primary_candidate(candidates, 0)->0;
    let others = alternatives(candidates, primary);
    if others.len() == 0 {
        "    missing `"@ + primary + "` file"@
    } else {
        "    missing `"@ + primary + "` file (also missing alternatives "@ + join(others, ", "@)
            + ")"@
    }
}

/// A name next to a path.
pub open spec fn sibling_text(path: CellPathModel, name: Text) -> Text {
    let parent = parent_path(path.path);
    if parent.len() == 0 {
        path.cell + "//"@ + name
    } else {
        path.cell + "//"@ + parent + "/"@ + name
    }
}

/// A suggestion in words.
pub open spec fn suggestion_text(path: CellPathModel, suggestion: Suggestion) -> Text {
    match suggestion {
        Suggestion::Cell(cells) => "Did you mean one of [`"@ + join(cells, "`, `"@) + "`]?"@,
        Suggestion::Typo(name) => "Did you mean `"@ + sibling_text(path, name) + "`?"@,
        Suggestion::NoSuggestion => ""@,
    }
}

/// What is left of a path below another one.
pub open spec fn rest_of(path: Text, dir: Text) -> Text {
    if dir.len() == 0 {
        path
    } else if path.len() > dir.len() {
        path.skip((dir.len() + 1) as int)
    } else {
        seq![]
    }
}

/// The package in the cell that it belongs to.
pub open spec fn corrected(package: CellPathModel, path: CellPathModel, cell: Text) -> Text {
    if package.cell == path.cell && lies_in(package.path, path.path) {
        cell + "//"@ + rest_of(package.path, path.path)
    } else {
        cell + "//"@
    }
}

impl GatherError {
    /// Some candidate is not a second version of another.
    pub open spec fn has_primary(self) -> bool {
        match self {
            GatherError::NoBuildFile(package, candidates) => primary_candidate(candidates, 0) is Some,
            _ => true,
        }
    }

    /// The error in words.
    pub open spec fn text(self) -> Text {
        match self {
            GatherError::Error(package, e) => "gathering package listing for `"@ + package.text()
                + "`"@,
            GatherError::NoBuildFile(package, candidates) => opening(package) + missing_files(
                candidates,
            ),
            GatherError::DirectoryDoesNotExist(package, path, suggestion) => opening(package)
                + underline(path.text()) + "\n    dir `"@ + path.text() + "` does not exist. "@
                + suggestion_text(path, suggestion),
            GatherError::NotADirectory(package, path, node_type) => opening(package) + underline(
                path.text(),
            ) + "\n   path `"@ + path.text() + "` is a "@ + node_type + ", not a directory"@,
            GatherError::DirectoryIsIgnored(
                package,
                path,
                IgnoreReason::IgnoredByPattern(pattern),
            ) => opening(package) + underline(path.text()) + "\n    dir `"@ + path.text()
                + "` does not exist (project.ignore contains `"@ + pattern + "`)"@,
            GatherError::DirectoryIsIgnored(
                package,
                path,
                IgnoreReason::IgnoredByCell(cell),
            ) => opening(package) + underline(path.text())
                + "\n    this package is using the wrong cell, use `"@ + corrected(
                package,
                path,
                cell,
            ) + "` instead"@,
        }
    }
}

/// The first line of an error about a package.
pub open spec fn opening(package: CellPathModel) -> Text {
    "package `"@ + package.text() + ":` does not exist\n"@
}

fn extension_of(name: &str) -> (r: Option<&str>)
    ensures
        r.deep_view() == extension(name@),
{
    match rsplit_once_of(name, ".") {
        Some((stem, ext)) => if stem.unicode_len() == 0 {
            None
        } else {
            Some(ext)
        },
        None => None,
    }
}

fn primary_of(candidates: &Vec<String>) -> (r: Option<String>)
    ensures
        r.deep_view() == primary_candidate(candidates.deep_view(), 0),
{
    let ghost model = candidates.deep_view();
    let mut i: usize = 0;
    while i < candidates.len()
        invariant
            model == candidates.deep_view(),
            0 <= i <= candidates@.len(),
            primary_candidate(model, 0) == primary_candidate(model, i as int),
        decreases candidates.len() - i,
    {
        assert(model[i as int] == candidates@[i as int]@);
        let second = match extension_of(candidates[i].as_str()) {
            Some(ext) => same(ext, "v2"),
            None => false,
        };
        if !second {
            return Some(candidates[i].clone());
        }
        i += 1;
    }
    None
}

fn alternatives_of(candidates: &Vec<String>, primary: &str) -> (r: Vec<String>)
    ensures
        r.deep_view() == alternatives(candidates.deep_view(), primary@),
{
    let ghost model = candidates.deep_view();
    let mut out: Vec<String> = Vec::new();
    assert(out.deep_view() =~= seq![]);
    let mut i: usize = 0;
    while i < candidates.len()
        invariant
            model == candidates.deep_view(),
            0 <= i <= candidates@.len(),
            out.deep_view() == alternatives(model.take(i as int), primary@),
        decreases candidates.len() - i,
    {
        let ghost before = out.deep_view();
        proof {
            let t = model.take(i + 1);
            assert(t.drop_last() =~= model.take(i as int));
            assert(t.last() == candidates@[i as int]@);
        }
        let candidate = candidates[i].as_str();
        if !same(candidate, primary) {
            out.push(concat3("`", candidate, "`"));
            assert(out.deep_view() =~= before.push("`"@ + candidate@ + "`"@));
        }
        i += 1;
    }
    assert(model.take(i as int) =~= model);
    out
}

fn missing_files_of(candidates: &Vec<String>) -> (r: String)
    requires
        primary_candidate(candidates.deep_view(), 0) is Some,
    ensures
        r@ == missing_files(candidates.deep_view()),
{
    let primary = primary_of(candidates).unwrap();
    let others = alternatives_of(candidates, primary.as_str());
    assert(others.deep_view().len() == others@.len());
    if others.len() == 0 {
        concat3("    missing `", primary.as_str(), "` file")
    } else {
        let mut text = concat3(
            "    missing `",
            primary.as_str(),
            "` file (also missing alternatives ",
        );
        text.append(join_of(&others, ", ").as_str());
        text.append(")");
        text
    }
}

fn suggestion_text_of(path: &CellPath, suggestion: &DirectoryDoesNotExistSuggestion) -> (r: String)
    ensures
        r@ == suggestion_text(path.deep_view(), suggestion.deep_view()),
{
    match suggestion {
        DirectoryDoesNotExistSuggestion::Cell(cells) => concat3(
            "Did you mean one of [`",
            join_of(cells, "`, `").as_str(),
            "`]?",
        ),
        DirectoryDoesNotExistSuggestion::Typo(name) => {
            let parent = parent_of(path.path.as_str());
            let mut target = concat(path.cell.as_str(), "//");
            if parent.unicode_len() > 0 {
                target.append(parent);
                target.append("/");
            }
            target.append(name.as_str());
            assert(target@ =~= sibling_text(path.deep_view(), name@));
            concat3("Did you mean `", target.as_str(), "`?")
        },
        DirectoryDoesNotExistSuggestion::NoSuggestion => "".to_owned(),
    }
}

fn corrected_of(package: &CellPath, path: &CellPath, cell: &str) -> (r: String)
    ensures
        r@ == corrected(package.deep_view(), path.deep_view(), cell@),
{
    if same(package.cell.as_str(), path.cell.as_str()) && path_lies_in(
        package.path.as_str(),
        path.path.as_str(),
    ) {
        let own: usize = package.path.as_str().unicode_len();
        let dir: usize = path.path.as_str().unicode_len();
        let rest = if dir == 0 {
            package.path.as_str()
        } else if own > dir {
            text_from(package.path.as_str(), dir + 1)
        } else {
            let none = "";
            proof {
                reveal_strlit("");
            }
            assert(none@ =~= seq![]);
            none
        };
        concat3(cell, "//", rest)
    } else {
        concat(cell, "//")
    }
}

fn opening_of(package: &CellPath) -> (r: String)
    ensures
        r@ == opening(package.deep_view()),
{
    concat3("package `", package.display().as_str(), ":` does not exist\n")
}

impl GatherPackageListingError {
    /// The error in words.
    pub fn display(&self) -> (r: String)
        requires
            self.deep_view().has_primary(),
        ensures
            r@ == self.deep_view().text(),
    {
        match self {
            GatherPackageListingError::Error { package, .. } => concat3(
                "gathering package listing for `",
                package.display().as_str(),
                "`",
            ),
            GatherPackageListingError::NoBuildFile { package, candidates } => {
                let mut text = opening_of(package);
                text.append(missing_files_of(candidates).as_str());
                text
            },
            GatherPackageListingError::DirectoryDoesNotExist {
                package,
                expected_path,
                suggestion,
            } => {
                let path = expected_path.display();
                let mut text = opening_of(package);
                text.append(underline_of(path.as_str()).as_str());
                text.append("\n    dir `");
                text.append(path.as_str());
                text.append("` does not exist. ");
                text.append(suggestion_text_of(expected_path, suggestion).as_str());
                text
            },
            GatherPackageListingError::NotADirectory { package, path, node_type } => {
                let path = path.display();
                let mut text = opening_of(package);
                text.append(underline_of(path.as_str()).as_str());
                text.append("\n   path `");
                text.append(path.as_str());
                text.append("` is a ");
                text.append(node_type.as_str());
                text.append(", not a directory");
                text
            },
            GatherPackageListingError::DirectoryIsIgnored { package, path, ignore_reason } => {
                let path_text = path.display();
                let mut text = opening_of(package);
                text.append(underline_of(path_text.as_str()).as_str());
                match ignore_reason {
                    FileIgnoreReason::IgnoredByPattern(pattern) => {
                        text.append("\n    dir `");
                        text.append(path_text.as_str());
                        text.append("` does not exist (project.ignore contains `");
                        text.append(pattern.as_str());
                        text.append("`)");
                    },
                    FileIgnoreReason::IgnoredByCell(cell) => {
                        text.append("\n    this package is using the wrong cell, use `");
                        text.append(corrected_of(package, path, cell.as_str()).as_str());
                        text.append("` instead");
                    },
                }
                text
            },
        }
    }
}

/// An entry of a directory.
#[derive(Debug, PartialEq, Eq)]
pub struct DirEntry {
    pub file_name: String,
    pub is_dir: bool,
}

/// The model of [`DirEntry`].
pub struct DirEntryModel {
    pub file_name: Text,
    pub is_dir: bool,
}

impl DeepView for DirEntry {
    type V = DirEntryModel;

    open spec fn deep_view(&self) -> DirEntryModel {
        DirEntryModel { file_name: self.file_name@, is_dir: self.is_dir }
    }
}

/// What is known of a directory: its entries, or why it could not be read.
#[derive(Debug, PartialEq, Eq)]
pub enum KnownDir {
    Entries(Vec<DirEntry>),
    Failed(ReadDirError),
}

/// The model of [`KnownDir`].
pub enum KnownDirModel {
    Entries(Seq<DirEntryModel>),
    Failed(ReadDirErrorModel),
}

impl DeepView for KnownDir {
    type V = KnownDirModel;

    open spec fn deep_view(&self) -> KnownDirModel {
        match self {
            KnownDir::Entries(entries) => KnownDirModel::Entries(entries.deep_view()),
            KnownDir::Failed(e) => KnownDirModel::Failed(e.deep_view()),
        }
    }
}

/// The directories that are known, by their paths below a package.
pub type KnownDirs = Seq<(Text, KnownDirModel)>;

/// The directory has an entry of that name.
pub open spec fn has_entry(entries: Seq<DirEntryModel>, name: Text) -> bool {
    exists|i: int| 0 <= i < entries.len() && (#[trigger] entries[i]).file_name == name
}

/// The first candidate from `i` on that the directory has.
pub open spec fn build_file(candidates: Seq<Text>, entries: Seq<DirEntryModel>, i: int) -> Option<
    Text,
>
    decreases candidates.len() - i,
{
    if i < 0 || i >= candidates.len() {
        None
    } else if has_entry(entries, candidates[i]) {
        Some(candidates[i])
    } else {
        build_file(candidates, entries, i + 1)
    }
}

fn entry_exists(entries: &Vec<DirEntry>, name: &str) -> (r: bool)
    ensures
        r == has_entry(entries.deep_view(), name@),
{
    let mut i: usize = 0;
    while i < entries.len()
        invariant
            0 <= i <= entries@.len(),
            forall|j: int| 0 <= j < i ==> (#[trigger] entries.deep_view()[j]).file_name != name@,
        decreases entries.len() - i,
    {
        assert(entries.deep_view()[i as int] == entries@[i as int].deep_view());
        if same(entries[i].file_name.as_str(), name) {
            return true;
        }
        i += 1;
    }
    false
}

/// The first candidate that the directory has.
pub fn find_buildfile(candidates: &Vec<String>, entries: &Vec<DirEntry>) -> (r: Option<String>)
    ensures
        r.deep_view() == build_file(candidates.deep_view(), entries.deep_view(), 0),
{
    let ghost model = candidates.deep_view();
    let mut i: usize = 0;
    while i < candidates.len()
        invariant
            model == candidates.deep_view(),
            0 <= i <= candidates@.len(),
            build_file(model, entries.deep_view(), 0) == build_file(
                model,
                entries.deep_view(),
                i as int,
            ),
        decreases candidates.len() - i,
    {
        assert(model[i as int] == candidates@[i as int]@);
        if entry_exists(entries, candidates[i].as_str()) {
            return Some(candidates[i].clone());
        }
        i += 1;
    }
    None
}

/// The paths of the entries that are directories, or of those that are not.
pub open spec fn children(entries: Seq<DirEntryModel>, path: Text, dirs: bool) -> Seq<Text>
    decreases entries.len(),
{
    if entries.len() == 0 {
        seq![]
    } else if entries.last().is_dir == dirs {
        children(entries.drop_last(), path, dirs).push(below(path, entries.last().file_name))
    } else {
        children(entries.drop_last(), path, dirs)
    }
}

/// The paths that the strategy lists in turn, or those that it does not.
pub open spec fn chosen(paths: Seq<Text>, strategy: Strategy, recurses: bool) -> Seq<Text>
    decreases paths.len(),
{
    if paths.len() == 0 {
        seq![]
    } else if strategy.recurses(paths.last()) == recurses {
        chosen(paths.drop_last(), strategy, recurses).push(paths.last())
    } else {
        chosen(paths.drop_last(), strategy, recurses)
    }
}

/// What was found below a directory.
pub struct Found {
    pub files: Seq<Text>,
    pub dirs: Seq<Text>,
    pub subpackages: Seq<Text>,
}

/// What ends the gathering before its time: a directory that has to be looked
/// up, or an error.
pub enum GatherStop {
    NeedsDir(String),
    Failed(GatherPackageListingError),
}

/// The model of [`GatherStop`].
pub enum GatherStopModel {
    NeedsDir(Text),
    Failed(GatherError),
}

impl DeepView for GatherStop {
    type V = GatherStopModel;

    open spec fn deep_view(&self) -> GatherStopModel {
        match self {
            GatherStop::NeedsDir(path) => GatherStopModel::NeedsDir(path@),
            GatherStop::Failed(e) => GatherStopModel::Failed(e.deep_view()),
        }
    }
}

/// What a gathering goes by: the package, the names of build files, the strategy
/// and the directories that are known.
pub struct GatherPlan {
    pub package: CellPathModel,
    pub candidates: Seq<Text>,
    pub strategy: Strategy,
    pub known: KnownDirs,
}

/// What is found in a directory below the package and, down to a depth, below
/// it. None where it is a package of its own.
pub open spec fn gathered(plan: GatherPlan, path: Text, depth: nat) -> Result<
    Option<Found>,
    GatherStopModel,
>
    decreases depth, 0int,
{
    if depth == 0 {
        Err(GatherStopModel::NeedsDir(path))
    } else {
        match lookup(plan.known, path) {
            None => Err(GatherStopModel::NeedsDir(path)),
            Some(KnownDirModel::Failed(e)) => Err(
                GatherStopModel::Failed(gather_error(plan.package.child(path), e)),
            ),
            Some(KnownDirModel::Entries(entries)) => if path.len() > 0 && build_file(
                plan.candidates,
                entries,
                0,
            ) is Some {
                Ok(None)
            } else if path.len() == 0 && build_file(plan.candidates, entries, 0) is None {
                Err(
                    GatherStopModel::Failed(
                        GatherError::NoBuildFile(plan.package.child(path), plan.candidates),
                    ),
                )
            } else {
                let subdirs = children(entries, path, true);
                match gathered_all(
                    plan,
                    chosen(subdirs, plan.strategy, true),
                    (depth - 1) as nat,
                    0,
                    Found {
                        files: children(entries, path, false),
                        dirs: if path.len() == 0 {
                            seq![]
                        } else {
                            seq![path]
                        },
                        subpackages: seq![],
                    },
                ) {
                    Err(stop) => Err(stop),
                    Ok(found) => Ok(
                        Some(
                            Found {
                                dirs: found.dirs + chosen(subdirs, plan.strategy, false),
                                ..found
                            },
                        ),
                    ),
                }
            },
        }
    }
}

/// What is found in the directories from `i` on, behind what was found before.
pub open spec fn gathered_all(
    plan: GatherPlan,
    paths: Seq<Text>,
    depth: nat,
    i: int,
    done: Found,
) -> Result<Found, GatherStopModel>
    decreases depth, paths.len() - i + 1,
{
    if i < 0 || i >= paths.len() {
        Ok(done)
    } else {
        match gathered(plan, paths[i], depth) {
            Err(stop) => Err(stop),
            Ok(None) => gathered_all(
                plan,
                paths,
                depth,
                i + 1,
                Found { subpackages: done.subpackages.push(paths[i]), ..done },
            ),
            Ok(Some(found)) => gathered_all(
                plan,
                paths,
                depth,
                i + 1,
                Found {
                    files: done.files + found.files,
                    dirs: done.dirs + found.dirs,
                    subpackages: done.subpackages + found.subpackages,
                },
            ),
        }
    }
}

/// What was found below a directory.
struct Directory {
    files: Vec<String>,
    dirs: Vec<String>,
    subpackages: Vec<String>,
}

impl DeepView for Directory {
    type V = Found;

    closed spec fn deep_view(&self) -> Found {
        Found {
            files: self.files.deep_view(),
            dirs: self.dirs.deep_view(),
            subpackages: self.subpackages.deep_view(),
        }
    }
}

/// A gathering: the package, the names of build files, the strategy and the
/// directories that are known.
struct Gathering<'a> {
    package: &'a CellPath,
    candidates: &'a Vec<String>,
    strategy: &'a PackageListingStrategy,
    known: &'a KeyMap<String, KnownDir>,
}

impl<'a> DeepView for Gathering<'a> {
    type V = GatherPlan;

    closed spec fn deep_view(&self) -> GatherPlan {
        GatherPlan {
            package: self.package.deep_view(),
            candidates: self.candidates.deep_view(),
            strategy: self.strategy.deep_view(),
            known: self.known.deep_view(),
        }
    }
}

fn children_of(entries: &Vec<DirEntry>, path: &str, dirs: bool) -> (r: Vec<String>)
    ensures
        r.deep_view() == children(entries.deep_view(), path@, dirs),
{
    let ghost model = entries.deep_view();
    let mut out: Vec<String> = Vec::new();
    assert(out.deep_view() =~= seq![]);
    let mut i: usize = 0;
    while i < entries.len()
        invariant
            model == entries.deep_view(),
            0 <= i <= entries@.len(),
            out.deep_view() == children(model.take(i as int), path@, dirs),
        decreases entries.len() - i,
    {
        let ghost before = out.deep_view();
        proof {
            let t = model.take(i + 1);
            assert(t.drop_last() =~= model.take(i as int));
            assert(t.last() == entries@[i as int].deep_view());
        }
        if entries[i].is_dir == dirs {
            let child = join_below(path, entries[i].file_name.as_str());
            let ghost added = child@;
            out.push(child);
            assert(out.deep_view() =~= before.push(added));
        }
        i += 1;
    }
    assert(model.take(i as int) =~= model);
    out
}

fn choose_paths(paths: &Vec<String>, strategy: &PackageListingStrategy, recurses: bool) -> (r: Vec<
    String,
>)
    ensures
        r.deep_view() == chosen(paths.deep_view(), strategy.deep_view(), recurses),
{
    let ghost model = paths.deep_view();
    let mut out: Vec<String> = Vec::new();
    assert(out.deep_view() =~= seq![]);
    let mut i: usize = 0;
    while i < paths.len()
        invariant
            model == paths.deep_view(),
            0 <= i <= paths@.len(),
            out.deep_view() == chosen(model.take(i as int), strategy.deep_view(), recurses),
        decreases paths.len() - i,
    {
        let ghost before = out.deep_view();
        proof {
            let t = model.take(i + 1);
            assert(t.drop_last() =~= model.take(i as int));
            assert(t.last() == paths@[i as int]@);
        }
        if strategy.should_recurse_into(paths[i].as_str()) == recurses {
            out.push(paths[i].clone());
            assert(out.deep_view() =~= before.push(model[i as int]));
        }
        i += 1;
    }
    assert(model.take(i as int) =~= model);
    out
}

impl Directory {
    /// What is found in a directory below the package and, down to a depth,
    /// below it. None where it is a package of its own.
    fn gather(plan: &Gathering<'_>, path: &str, depth: usize) -> (r: Result<
        Option<Directory>,
        GatherStop,
    >)
        ensures
            gathered(plan.deep_view(), path@, depth as nat) == (match r {
                Ok(found) => Ok::<Option<Found>, GatherStopModel>(found.deep_view()),
                Err(stop) => Err(stop.deep_view()),
            }),
        decreases depth, 0int,
    {
        if depth == 0 {
            return Err(GatherStop::NeedsDir(path.to_owned()));
        }
        let entries = match plan.known.get(&path.to_owned()) {
            None => {
                return Err(GatherStop::NeedsDir(path.to_owned()));
            },
            Some(KnownDir::Failed(e)) => {
                return Err(
                    GatherStop::Failed(
                        GatherPackageListingError::from_read_dir(&plan.package.join(path), e),
                    ),
                );
            },
            Some(KnownDir::Entries(entries)) => entries,
        };
        let buildfile = find_buildfile(plan.candidates, entries);
        let is_root = path.unicode_len() == 0;
        if !is_root && buildfile.is_some() {
            return Ok(None);
        }
        if is_root && buildfile.is_none() {
            return Err(
                GatherStop::Failed(
                    GatherPackageListingError::no_build_file(
                        &plan.package.join(path),
                        plan.candidates,
                    ),
                ),
            );
        }
        let subdirs = children_of(entries, path, true);
        let mut dirs: Vec<String> = Vec::new();
        if !is_root {
            dirs.push(path.to_owned());
            assert(dirs.deep_view() =~= seq![path@]);
        } else {
            assert(dirs.deep_view() =~= seq![]);
        }
        let found = Directory {
            files: children_of(entries, path, false),
            dirs,
            subpackages: Vec::new(),
        };
        assert(found.deep_view().subpackages =~= seq![]);
        let listed = choose_paths(&subdirs, plan.strategy, true);
        let mut shallow = choose_paths(&subdirs, plan.strategy, false);
        match Directory::gather_subdirs(plan, &listed, depth - 1, found) {
            Ok(all) => {
                let mut all = all;
                let ghost a = all.dirs.deep_view();
                let ghost b = shallow.deep_view();
                all.dirs.append(&mut shallow);
                assert(all.dirs.deep_view() =~= a + b);
                Ok(Some(all))
            },
            Err(stop) => Err(stop),
        }
    }

    /// What is found in the directories, behind what was found before.
    fn gather_subdirs(
        plan: &Gathering<'_>,
        subdirs: &Vec<String>,
        depth: usize,
        found: Directory,
    ) -> (r: Result<Directory, GatherStop>)
        ensures
            gathered_all(
                plan.deep_view(),
                subdirs.deep_view(),
                depth as nat,
                0,
                found.deep_view(),
            ) == (match r {
                Ok(found) => Ok::<Found, GatherStopModel>(found.deep_view()),
                Err(stop) => Err(stop.deep_view()),
            }),
        decreases depth, 1int,
    {
        let ghost model = subdirs.deep_view();
        let ghost p = plan.deep_view();
        let ghost whole = gathered_all(p, model, depth as nat, 0, found.deep_view());
        let ghost first = found.deep_view();
        let mut done = found;
        let mut i: usize = 0;
        while i < subdirs.len()
            invariant
                model == subdirs.deep_view(),
                p == plan.deep_view(),
                0 <= i <= subdirs@.len(),
                whole == gathered_all(p, model, depth as nat, 0, first),
                first == found.deep_view(),
                whole == gathered_all(p, model, depth as nat, i as int, done.deep_view()),
            decreases subdirs.len() - i,
        {
            assert(model[i as int] == subdirs@[i as int]@);
            let ghost before = done.deep_view();
            match Directory::gather(plan, subdirs[i].as_str(), depth) {
                Err(stop) => {
                    return Err(stop);
                },
                Ok(None) => {
                    done.subpackages.push(subdirs[i].clone());
                    assert(done.subpackages.deep_view() =~= before.subpackages.push(
                        model[i as int],
                    ));
                },
                Ok(Some(sub)) => {
                    let mut sub = sub;
                    let ghost s = sub.deep_view();
                    done.files.append(&mut sub.files);
                    done.dirs.append(&mut sub.dirs);
                    done.subpackages.append(&mut sub.subpackages);
                    assert(done.files.deep_view() =~= before.files + s.files);
                    assert(done.dirs.deep_view() =~= before.dirs + s.dirs);
                    assert(done.subpackages.deep_view() =~= before.subpackages + s.subpackages);
                },
            }
            i += 1;
        }
        Ok(done)
    }

    /// The listing of the package.
    fn flatten(self, buildfile: String) -> (r: PackageListing)
        ensures
            r.is_listing(self.deep_view(), buildfile@),
    {
        let files = sorted_vec_from(self.files);
        let dirs = sorted_vec_from(self.dirs);
        let subpackages = sorted_vec_from(self.subpackages);
        proof {
            law_sorted_list_set(sorted_vec_items(files), self.files.deep_view());
            law_sorted_list_set(sorted_vec_items(dirs), self.dirs.deep_view());
        }
        PackageListing {
            files: sorted_set_from(files),
            directories: sorted_set_from(dirs),
            subpackages,
            buildfile,
        }
    }
}

/// The files and directories of a package, the packages below it, and the name
/// of its build file.
pub struct PackageListing {
    files: SortedSet<String>,
    directories: SortedSet<String>,
    subpackages: SortedVec<String>,
    buildfile: String,
}

impl PackageListing {
    /// The files, in order.
    pub closed spec fn file_list(&self) -> Seq<Text> {
        sorted_set_items(self.files)
    }

    /// The directories, in order.
    pub closed spec fn directory_list(&self) -> Seq<Text> {
        sorted_set_items(self.directories)
    }

    /// The packages below, in order.
    pub closed spec fn subpackage_list(&self) -> Seq<Text> {
        sorted_vec_items(self.subpackages)
    }

    /// The name of the build file.
    pub closed spec fn build_file_name(&self) -> Text {
        self.buildfile@
    }

    /// The listing is that of what was found: files and directories in order,
    /// each once, and packages in order.
    pub open spec fn is_listing(&self, found: Found, buildfile: Text) -> bool {
        &&& self.file_list() == sorted_set_of::<String>(found.files)
        &&& self.directory_list() == sorted_set_of::<String>(found.dirs)
        &&& in_order(self.subpackage_list())
        &&& self.subpackage_list().to_multiset() == found.subpackages.to_multiset()
        &&& self.build_file_name() == buildfile
    }

    /// The files, in order.
    pub fn files(&self) -> (r: Vec<&String>)
        ensures
            r.deep_view() == self.file_list(),
    {
        sorted_set_entries(&self.files)
    }

    /// Whether the package has the file.
    pub fn contains_file(&self, path: &str) -> (r: bool)
        ensures
            r == self.file_list().contains(path@),
    {
        sorted_set_contains(&self.files, path)
    }

    /// The directories, in order.
    pub fn directories(&self) -> (r: Vec<&String>)
        ensures
            r.deep_view() == self.directory_list(),
    {
        sorted_set_entries(&self.directories)
    }

    /// The packages below, in order.
    pub fn subpackages(&self) -> (r: Vec<&String>)
        ensures
            r.deep_view() == self.subpackage_list(),
    {
        sorted_vec_entries(&self.subpackages)
    }

    /// The name of the build file.
    pub fn buildfile(&self) -> (r: &str)
        ensures
            r@ == self.build_file_name(),
    {
        self.buildfile.as_str()
    }
}

/// What the listing of a package comes to: what is found below it, and its build
/// file.
pub open spec fn package_found(plan: GatherPlan) -> Result<(Found, Text), GatherStopModel> {
    match gathered(plan, seq![], plan.known.len() + 1) {
        Err(stop) => Err(stop),
        Ok(found) => Ok(
            (
                found->0,
                build_file(
                    plan.candidates,
                    lookup(plan.known, seq![])->0->Entries_0,
                    0,
                )->0,
            ),
        ),
    }
}

/// The listing of a package, or a directory that has to be looked up first, or
/// an error.
pub fn gather_package_listing(
    package: &CellPath,
    buildfile_candidates: &Vec<String>,
    strategy: &PackageListingStrategy,
    known: &KeyMap<String, KnownDir>,
) -> (r: Result<PackageListing, GatherStop>)
    requires
        known.deep_view().len() < usize::MAX,
    ensures
        match package_found(
            (GatherPlan {
                package: package.deep_view(),
                candidates: buildfile_candidates.deep_view(),
                strategy: strategy.deep_view(),
                known: known.deep_view(),
            }),
        ) {
            Ok((found, buildfile)) => r matches Ok(listing) && listing.is_listing(found, buildfile),
            Err(stop) => r matches Err(s) && s.deep_view() == stop,
        },
{
    let plan = Gathering { package, candidates: buildfile_candidates, strategy, known };
    assert(known.deep_view().len() == known.entries@.len());
    let depth: usize = known.entries.len() + 1;
    proof {
        reveal_strlit("");
        assert(""@ =~= seq![]);
        reveal_with_fuel(gathered, 2);
    }
    match Directory::gather(&plan, "", depth) {
        Err(stop) => Err(stop),
        Ok(found) => {
            let found = found.unwrap();
            let buildfile = match known.get(&"".to_owned()) {
                Some(KnownDir::Entries(entries)) => find_buildfile(buildfile_candidates, entries),
                _ => None,
            };
            Ok(found.flatten(buildfile.unwrap()))
        },
    }
}

} // verus!
