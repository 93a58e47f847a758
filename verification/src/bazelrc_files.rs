//! Which `.bazelrc` files there are, and the records that they hold.

use vstd::prelude::*;
use vstd::string::*;
use crate::bazelrc::{
    BazelrcRecord, BazelrcRecordModel, bazelrc_options_from_records, bazelrc_tokenize,
    record_options, words,
};
use crate::module::InputError;
use crate::ordered::{
    Duplicate, KeyMap, KeySet, law_set_put_contains, lemma_missing, lookup, missing, set_put,
};
use crate::paths::{
    ConfigPath, ConfigPathModel, KnownFiles, file_names, join_normalized, join_path, leaves_top,
    lemma_file_names,
};
use crate::resolved::BazelCompatBazelrcOptions;
use crate::text::{
    Text, concat3, lemma_strip_put_prefix, lines, occurs_at, same, starts_with, strip_prefix,
    strip_prefix_of,
};

verus! {

/// What the path of an import leads to: a file, a path outside the project that
/// only the file system can resolve, or nothing at all.
pub enum ImportPath {
    File(ConfigPath),
    Outside(String),
    Invalid(InputError),
}

/// The model of [`ImportPath`].
pub enum ImportPathModel {
    File(ConfigPathModel),
    Outside(Text),
    Invalid(Text),
}

impl DeepView for ImportPath {
    type V = ImportPathModel;

    open spec fn deep_view(&self) -> ImportPathModel {
        match self {
            ImportPath::File(path) => ImportPathModel::File(path.deep_view()),
            ImportPath::Outside(path) => ImportPathModel::Outside(path@),
            ImportPath::Invalid(e) => ImportPathModel::Invalid(e.deep_view()),
        }
    }
}

/// What an import in the file at `current` leads to: a path behind
/// `%workspace%/` goes from the root, an absolute path is what it is, and any
/// other goes from the directory of the file.
pub open spec fn import_target(
    root: Text,
    current: ConfigPathModel,
    import: Text,
) -> ImportPathModel {
    match strip_prefix(import, "%workspace%/"@) {
        Some(path) => match join_path(root, path) {
            Some(joined) => ImportPathModel::File(ConfigPathModel::Project(joined)),
            None => ImportPathModel::Outside(path),
        },
        None => if import == "%workspace%"@ {
            ImportPathModel::File(ConfigPathModel::Project(root))
        } else if occurs_at(import, "/"@, 0) {
            ImportPathModel::File(ConfigPathModel::Global(import))
        } else {
            match current.sibling(import) {
                Some(path) => ImportPathModel::File(path),
                None => ImportPathModel::Invalid(leaves_top(import)),
            }
        },
    }
}

/// What an import in a file leads to.
pub fn bazelrc_import_path(root_path: &str, current_path: &ConfigPath, import_path: &str) -> (r:
    ImportPath)
    ensures
        r.deep_view() == import_target(root_path@, current_path.deep_view(), import_path@),
{
    match strip_prefix_of(import_path, "%workspace%/") {
        Some(path) => match join_normalized(root_path, path) {
            Some(joined) => ImportPath::File(ConfigPath::Project(joined)),
            None => ImportPath::Outside(path.to_owned()),
        },
        None => if same(import_path, "%workspace%") {
            ImportPath::File(ConfigPath::Project(root_path.to_owned()))
        } else if starts_with(import_path, "/") {
            ImportPath::File(ConfigPath::Global(import_path.to_owned()))
        } else {
            match current_path.join_to_parent_normalized(import_path) {
                Ok(path) => ImportPath::File(path),
                Err(e) => ImportPath::Invalid(e),
            }
        },
    }
}

/// A file that is being read: its lines, and the next of them.
pub struct Frame<'a> {
    pub path: ConfigPath,
    pub lines: &'a Vec<String>,
    pub next: usize,
}

/// The model of [`Frame`].
pub struct FrameModel {
    pub path: ConfigPathModel,
    pub lines: Seq<Text>,
    pub next: int,
}

impl<'a> DeepView for Frame<'a> {
    type V = FrameModel;

    open spec fn deep_view(&self) -> FrameModel {
        FrameModel {
            path: self.path.deep_view(),
            lines: self.lines.deep_view(),
            next: self.next as int,
        }
    }
}

/// Where the reading of files stands: the files seen, the records so far, and
/// the files that are being read, the innermost last.
pub struct Reading {
    pub visited: Seq<Text>,
    pub records: Seq<BazelrcRecordModel>,
    pub frames: Seq<FrameModel>,
}

/// What the reading of files comes to: the records, or what has to be looked up
/// before it can go on, or an error.
pub enum BazelrcFiles {
    Records(Vec<BazelrcRecord>),
    NeedsFile(ConfigPath),
    NeedsOutside(String),
    Failed(InputError),
}

/// The model of [`BazelrcFiles`].
pub enum BazelrcFilesModel {
    Records(Seq<BazelrcRecordModel>),
    NeedsFile(ConfigPathModel),
    NeedsOutside(Text),
    Failed(Text),
}

impl DeepView for BazelrcFiles {
    type V = BazelrcFilesModel;

    open spec fn deep_view(&self) -> BazelrcFilesModel {
        match self {
            BazelrcFiles::Records(records) => BazelrcFilesModel::Records(records.deep_view()),
            BazelrcFiles::NeedsFile(path) => BazelrcFilesModel::NeedsFile(path.deep_view()),
            BazelrcFiles::NeedsOutside(path) => BazelrcFilesModel::NeedsOutside(path@),
            BazelrcFiles::Failed(e) => BazelrcFilesModel::Failed(e.deep_view()),
        }
    }
}

/// Paths outside the project and the absolute paths that they are, if any.
pub type KnownPaths = Seq<(Text, Option<Text>)>;

/// A missing file that has to be there.
pub open spec fn file_missing(path: Text) -> Text {
    "Bazel rc file `"@ + path + "` does not exist"@
}

/// An import that has to lead somewhere and does not.
pub open spec fn import_unresolved(import: Text, path: Text) -> Text {
    "Bazel rc import `"@ + import + "` in `"@ + path + "` could not be resolved"@
}

/// What opening a file comes to: the next state, or an end of the reading.
pub open spec fn opened(
    files: KnownFiles,
    path: ConfigPathModel,
    required: bool,
    s: Reading,
) -> Result<Reading, BazelrcFilesModel> {
    if s.visited.contains(path.text()) {
        Ok(s)
    } else {
        let visited = set_put::<String>(s.visited, path.text());
        match lookup(files, path.text()) {
            None => Err(BazelrcFilesModel::NeedsFile(path)),
            Some(None) => if required {
                Err(BazelrcFilesModel::Failed(file_missing(path.text())))
            } else {
                Ok(Reading { visited, ..s })
            },
            Some(Some(lines)) => Ok(
                Reading {
                    visited,
                    frames: s.frames.push(FrameModel { path, lines, next: 0 }),
                    ..s
                },
            ),
        }
    }
}

/// What an import in the file at `current` comes to.
pub open spec fn imported(
    root: Text,
    files: KnownFiles,
    outside: KnownPaths,
    current: ConfigPathModel,
    import: Text,
    required: bool,
    s: Reading,
) -> Result<Reading, BazelrcFilesModel> {
    match import_target(root, current, import) {
        ImportPathModel::File(path) => opened(files, path, required, s),
        ImportPathModel::Invalid(message) => Err(BazelrcFilesModel::Failed(message)),
        ImportPathModel::Outside(path) => match lookup(outside, path) {
            None => Err(BazelrcFilesModel::NeedsOutside(path)),
            Some(None) => if required {
                Err(BazelrcFilesModel::Failed(import_unresolved(import, current.text())))
            } else {
                Ok(s)
            },
            Some(Some(path)) => opened(files, ConfigPathModel::Global(path), required, s),
        },
    }
}

/// The state after a line of the file at `current`: an import is followed, and
/// any other line with words is a record.
pub open spec fn line_read(
    root: Text,
    files: KnownFiles,
    outside: KnownPaths,
    current: ConfigPathModel,
    line: Text,
    s: Reading,
) -> Result<Reading, BazelrcFilesModel> {
    let all = words(line);
    if all.len() == 0 {
        Ok(s)
    } else if all[0] == "import"@ || all[0] == "try-import"@ {
        if all.len() == 1 {
            Ok(s)
        } else {
            imported(root, files, outside, current, all[1], all[0] == "import"@, s)
        }
    } else {
        Ok(
            Reading {
                records: s.records.push(
                    BazelrcRecordModel { command: all[0], args: all.skip(1) },
                ),
                ..s
            },
        )
    }
}

/// The lines that are left to read.
pub open spec fn lines_left(frames: Seq<FrameModel>) -> int
    decreases frames.len(),
{
    if frames.len() == 0 {
        0
    } else {
        let last = frames.last();
        lines_left(frames.drop_last()) + 1 + (if 0 <= last.next <= last.lines.len() {
            last.lines.len() - last.next
        } else {
            0
        })
    }
}

/// What the reading comes to from a state on.
pub open spec fn reading(
    root: Text,
    files: KnownFiles,
    outside: KnownPaths,
    s: Reading,
) -> BazelrcFilesModel
    decreases missing(file_names(files), s.visited), lines_left(s.frames),
    via reading_decreases
{
    if s.frames.len() == 0 {
        BazelrcFilesModel::Records(s.records)
    } else {
        let last = s.frames.last();
        if !(0 <= last.next < last.lines.len()) {
            reading(root, files, outside, Reading { frames: s.frames.drop_last(), ..s })
        } else {
            let frames = s.frames.drop_last().push(FrameModel { next: last.next + 1, ..last });
            match line_read(
                root,
                files,
                outside,
                last.path,
                last.lines[last.next],
                Reading { frames, ..s },
            ) {
                Ok(next) => reading(root, files, outside, next),
                Err(end) => end,
            }
        }
    }
}

proof fn lemma_lines_left(frames: Seq<FrameModel>)
    ensures
        lines_left(frames) >= 0,
    decreases frames.len(),
{
    if frames.len() > 0 {
        lemma_lines_left(frames.drop_last());
    }
}

/// Opening a file opens nothing, or takes one that was not seen before.
proof fn lemma_opened(files: KnownFiles, path: ConfigPathModel, required: bool, s: Reading)
    ensures
        opened(files, path, required, s) matches Ok(next) ==> {
            ||| next == s
            ||| missing(file_names(files), next.visited) < missing(file_names(files), s.visited)
        },
{
    let key = path.text();
    if !s.visited.contains(key) && lookup(files, key) is Some {
        let next = set_put::<String>(s.visited, key);
        lemma_file_names(files, key);
        assert forall|x: Text| #[trigger] s.visited.contains(x) implies next.contains(x) by {
            law_set_put_contains::<String>(s.visited, key, x);
        }
        law_set_put_contains::<String>(s.visited, key, key);
        lemma_missing(file_names(files), s.visited, next);
        assert(file_names(files).contains(key));
    }
}

proof fn lemma_line_read(
    root: Text,
    files: KnownFiles,
    outside: KnownPaths,
    current: ConfigPathModel,
    line: Text,
    s: Reading,
)
    ensures
        line_read(root, files, outside, current, line, s) matches Ok(next) ==> {
            ||| next.visited == s.visited && next.frames == s.frames
            ||| missing(file_names(files), next.visited) < missing(file_names(files), s.visited)
        },
{
    let all = words(line);
    if all.len() > 1 {
        let required = all[0] == "import"@;
        match import_target(root, current, all[1]) {
            ImportPathModel::File(path) => {
                lemma_opened(files, path, required, s);
            },
            ImportPathModel::Invalid(_) => {},
            ImportPathModel::Outside(path) => {
                match lookup(outside, path) {
                    Some(Some(path)) => {
                        lemma_opened(files, ConfigPathModel::Global(path), required, s);
                    },
                    _ => {},
                }
            },
        }
    }
}

#[via_fn]
proof fn reading_decreases(root: Text, files: KnownFiles, outside: KnownPaths, s: Reading) {
    if s.frames.len() > 0 {
        let last = s.frames.last();
        lemma_lines_left(s.frames.drop_last());
        lemma_lines_left(s.frames);
        if 0 <= last.next < last.lines.len() {
            let frames = s.frames.drop_last().push(FrameModel { next: last.next + 1, ..last });
            assert(frames.drop_last() =~= s.frames.drop_last());
            lemma_line_read(
                root,
                files,
                outside,
                last.path,
                last.lines[last.next],
                Reading { frames, ..s },
            );
            lemma_lines_left(frames);
        }
    }
}

/// What the reading of the files under a root comes to.
pub open spec fn bazelrc_files(
    root: Text,
    files: KnownFiles,
    outside: KnownPaths,
) -> BazelrcFilesModel {
    match join_path(root, ".bazelrc"@) {
        None => BazelrcFilesModel::Failed(leaves_top(root)),
        Some(path) => match opened(
            files,
            ConfigPathModel::Project(path),
            false,
            Reading { visited: seq![], records: seq![], frames: seq![] },
        ) {
            Ok(s) => reading(root, files, outside, s),
            Err(end) => end,
        },
    }
}

/// What a reading asks for is not known.
pub open spec fn asks_new(files: KnownFiles, outside: KnownPaths, end: BazelrcFilesModel) -> bool {
    match end {
        BazelrcFilesModel::NeedsFile(path) => lookup(files, path.text()) is None,
        BazelrcFilesModel::NeedsOutside(path) => lookup(outside, path) is None,
        _ => true,
    }
}

proof fn lemma_reading_asks(root: Text, files: KnownFiles, outside: KnownPaths, s: Reading)
    ensures
        asks_new(files, outside, reading(root, files, outside, s)),
    decreases missing(file_names(files), s.visited), lines_left(s.frames),
{
    if s.frames.len() > 0 {
        let last = s.frames.last();
        lemma_lines_left(s.frames.drop_last());
        lemma_lines_left(s.frames);
        if !(0 <= last.next < last.lines.len()) {
            lemma_reading_asks(root, files, outside, Reading { frames: s.frames.drop_last(), ..s });
        } else {
            let frames = s.frames.drop_last().push(FrameModel { next: last.next + 1, ..last });
            let before = Reading { frames, ..s };
            let line = last.lines[last.next];
            assert(frames.drop_last() =~= s.frames.drop_last());
            lemma_line_read(root, files, outside, last.path, line, before);
            lemma_lines_left(frames);
            if let Ok(next) = line_read(root, files, outside, last.path, line, before) {
                lemma_reading_asks(root, files, outside, next);
            }
        }
    }
}

/// What a reading asks for is not known yet: once everything that is asked for has
/// been looked up, the reading comes to its end.
pub proof fn law_reading_asks_new(root: Text, files: KnownFiles, outside: KnownPaths)
    ensures
        asks_new(files, outside, bazelrc_files(root, files, outside)),
{
    if let Some(path) = join_path(root, ".bazelrc"@) {
        let start = Reading { visited: seq![], records: seq![], frames: seq![] };
        if let Ok(s) = opened(files, ConfigPathModel::Project(path), false, start) {
            lemma_reading_asks(root, files, outside, s);
        }
    }
}

/// The state of a reading of files.
struct Reader<'a> {
    visited: KeySet<String>,
    records: Vec<BazelrcRecord>,
    frames: Vec<Frame<'a>>,
}

impl<'a> DeepView for Reader<'a> {
    type V = Reading;

    closed spec fn deep_view(&self) -> Reading {
        Reading {
            visited: self.visited.deep_view(),
            records: self.records.deep_view(),
            frames: self.frames.deep_view(),
        }
    }
}

/// Opens a file.
fn open_file<'a>(
    reader: &mut Reader<'a>,
    files: &'a KeyMap<String, Option<Vec<String>>>,
    path: ConfigPath,
    required: bool,
) -> (r: Option<BazelrcFiles>)
    ensures
        opened(files.deep_view(), path.deep_view(), required, old(reader).deep_view()) == (match r {
            None => Ok::<Reading, BazelrcFilesModel>(final(reader).deep_view()),
            Some(end) => Err(end.deep_view()),
        }),
{
    let key = path.display().to_owned();
    if reader.visited.contains(&key) {
        return None;
    }
    let found = files.get(&key);
    reader.visited.insert(key);
    match found {
        None => Some(BazelrcFiles::NeedsFile(path)),
        Some(None) => if required {
            let message = concat3("Bazel rc file `", path.display(), "` does not exist");
            Some(BazelrcFiles::Failed(InputError { message }))
        } else {
            None
        },
        Some(Some(lines)) => {
            let ghost before = reader.frames.deep_view();
            let frame = Frame { path, lines, next: 0 };
            let ghost model = frame.deep_view();
            reader.frames.push(frame);
            assert(reader.frames.deep_view() =~= before.push(model));
            None
        },
    }
}

/// Follows an import.
fn follow_import<'a>(
    reader: &mut Reader<'a>,
    root_path: &str,
    files: &'a KeyMap<String, Option<Vec<String>>>,
    outside: &KeyMap<String, Option<String>>,
    current: &ConfigPath,
    import_path: &str,
    required: bool,
) -> (r: Option<BazelrcFiles>)
    ensures
        imported(
            root_path@,
            files.deep_view(),
            outside.deep_view(),
            current.deep_view(),
            import_path@,
            required,
            old(reader).deep_view(),
        ) == (match r {
            None => Ok::<Reading, BazelrcFilesModel>(final(reader).deep_view()),
            Some(end) => Err(end.deep_view()),
        }),
{
    match bazelrc_import_path(root_path, current, import_path) {
        ImportPath::File(path) => open_file(reader, files, path, required),
        ImportPath::Invalid(e) => Some(BazelrcFiles::Failed(e)),
        ImportPath::Outside(path) => match outside.get(&path) {
            None => Some(BazelrcFiles::NeedsOutside(path)),
            Some(None) => if required {
                let message = concat3(
                    concat3("Bazel rc import `", import_path, "` in `").as_str(),
                    current.display(),
                    "` could not be resolved",
                );
                Some(BazelrcFiles::Failed(InputError { message }))
            } else {
                None
            },
            Some(Some(path)) => open_file(
                reader,
                files,
                ConfigPath::Global(path.clone()),
                required,
            ),
        },
    }
}

/// Takes in a line.
fn read_line<'a>(
    reader: &mut Reader<'a>,
    root_path: &str,
    files: &'a KeyMap<String, Option<Vec<String>>>,
    outside: &KeyMap<String, Option<String>>,
    current: &ConfigPath,
    line: &str,
) -> (r: Option<BazelrcFiles>)
    ensures
        line_read(
            root_path@,
            files.deep_view(),
            outside.deep_view(),
            current.deep_view(),
            line@,
            old(reader).deep_view(),
        ) == (match r {
            None => Ok::<Reading, BazelrcFilesModel>(final(reader).deep_view()),
            Some(end) => Err(end.deep_view()),
        }),
{
    let all = bazelrc_tokenize(line);
    let ghost model = all.deep_view();
    assert(model.len() == all@.len());
    if all.len() == 0 {
        return None;
    }
    assert(model[0] == all@[0]@);
    let required = same(all[0].as_str(), "import");
    if required || same(all[0].as_str(), "try-import") {
        if all.len() == 1 {
            return None;
        }
        assert(model[1] == all@[1]@);
        return follow_import(
            reader,
            root_path,
            files,
            outside,
            current,
            all[1].as_str(),
            required,
        );
    }
    let mut args: Vec<String> = Vec::new();
    let mut i: usize = 1;
    while i < all.len()
        invariant
            model == all.deep_view(),
            1 <= i <= all@.len(),
            args.deep_view() =~= model.subrange(1, i as int),
        decreases all.len() - i,
    {
        let ghost before = args.deep_view();
        args.push(all[i].clone());
        assert(args.deep_view() =~= before.push(model[i as int]));
        i += 1;
    }
    assert(args.deep_view() =~= model.skip(1));
    let ghost before = reader.records.deep_view();
    let record = BazelrcRecord { command: all[0].clone(), args };
    let ghost added = record.deep_view();
    reader.records.push(record);
    assert(reader.records.deep_view() =~= before.push(added));
    None
}

/// The records of the `.bazelrc` file under a root and of the files that it
/// imports, or what has to be looked up first.
pub fn collect_bazelrc_records(
    root_path: &str,
    files: &KeyMap<String, Option<Vec<String>>>,
    outside: &KeyMap<String, Option<String>>,
) -> (r: BazelrcFiles)
    ensures
        r.deep_view() == bazelrc_files(root_path@, files.deep_view(), outside.deep_view()),
{
    let path = match join_normalized(root_path, ".bazelrc") {
        Some(path) => path,
        None => {
            let message = concat3("expected a normalized path but got an un-normalized path instead: `", root_path, "`");
            return BazelrcFiles::Failed(InputError { message });
        },
    };
    let mut reader = Reader { visited: KeySet::new(), records: Vec::new(), frames: Vec::new() };
    assert(reader.deep_view().visited =~= seq![]);
    assert(reader.deep_view().records =~= seq![]);
    assert(reader.deep_view().frames =~= seq![]);
    match open_file(&mut reader, files, ConfigPath::Project(path), false) {
        Some(end) => {
            return end;
        },
        None => {},
    }
    let ghost known = files.deep_view();
    let ghost absolute = outside.deep_view();
    let ghost whole = bazelrc_files(root_path@, known, absolute);
    while reader.frames.len() > 0
        invariant
            known == files.deep_view(),
            absolute == outside.deep_view(),
            whole == bazelrc_files(root_path@, known, absolute),
            whole == reading(root_path@, known, absolute, reader.deep_view()),
        decreases
            missing(file_names(known), reader.deep_view().visited),
            lines_left(reader.deep_view().frames),
    {
        let ghost s = reader.deep_view();
        proof {
            lemma_lines_left(s.frames);
            lemma_lines_left(s.frames.drop_last());
        }
        let frame = reader.frames.pop().unwrap();
        let ghost last = frame.deep_view();
        assert(last == s.frames.last());
        assert(reader.frames.deep_view() =~= s.frames.drop_last());
        if frame.next < frame.lines.len() {
            let lines = frame.lines;
            let next: usize = frame.next;
            let current = frame.path.duplicate();
            let ghost rest = reader.frames.deep_view();
            let advanced = Frame { path: frame.path, lines, next: next + 1 };
            let ghost pushed = advanced.deep_view();
            reader.frames.push(advanced);
            assert(reader.frames.deep_view() =~= rest.push(pushed));
            let ghost middle = reader.deep_view();
            proof {
                assert(middle == Reading {
                    frames: s.frames.drop_last().push(FrameModel { next: last.next + 1, ..last }),
                    ..s
                });
                assert(middle.frames.drop_last() =~= s.frames.drop_last());
                assert(last.lines[last.next] == lines@[next as int]@);
                lemma_line_read(
                    root_path@,
                    known,
                    absolute,
                    last.path,
                    last.lines[last.next],
                    middle,
                );
                lemma_lines_left(middle.frames);
            }
            match read_line(
                &mut reader,
                root_path,
                files,
                outside,
                &current,
                lines[next].as_str(),
            ) {
                Some(end) => {
                    return end;
                },
                None => {},
            }
        }
    }
    BazelrcFiles::Records(reader.records)
}

/// What the `.bazelrc` files under a root come to: the options, what has to be
/// looked up first, or an error.
pub enum BazelrcLookup {
    Options(BazelCompatBazelrcOptions),
    NeedsFile(ConfigPath),
    NeedsOutside(String),
    Failed(InputError),
}

/// The options of the `.bazelrc` files under a root.
pub fn get_bazelrc_options(
    cell_path: &str,
    files: &KeyMap<String, Option<Vec<String>>>,
    outside: &KeyMap<String, Option<String>>,
    host_config: &str,
) -> (r: BazelrcLookup)
    requires
        bazelrc_files(cell_path@, files.deep_view(), outside.deep_view()) matches
            BazelrcFilesModel::Records(records) ==> record_options(records, host_config@) is Some,
    ensures
        match bazelrc_files(cell_path@, files.deep_view(), outside.deep_view()) {
            BazelrcFilesModel::Records(records) => r matches BazelrcLookup::Options(o)
                && Some(o.deep_view()) == record_options(records, host_config@),
            BazelrcFilesModel::NeedsFile(path) => r matches BazelrcLookup::NeedsFile(p)
                && p.deep_view() == path,
            BazelrcFilesModel::NeedsOutside(path) => r matches BazelrcLookup::NeedsOutside(p)
                && p@ == path,
            BazelrcFilesModel::Failed(message) => r matches BazelrcLookup::Failed(e)
                && e.deep_view() == message,
        },
{
    match collect_bazelrc_records(cell_path, files, outside) {
        BazelrcFiles::Records(records) => BazelrcLookup::Options(
            bazelrc_options_from_records(&records, host_config),
        ),
        BazelrcFiles::NeedsFile(path) => BazelrcLookup::NeedsFile(path),
        BazelrcFiles::NeedsOutside(path) => BazelrcLookup::NeedsOutside(path),
        BazelrcFiles::Failed(e) => BazelrcLookup::Failed(e),
    }
}

/// What an import leads to: behind `%workspace%/` a path from the root of the project, an
/// absolute path itself, and any other a path from the directory of the file.
pub proof fn law_import_target(root: Text, current: ConfigPathModel, path: Text)
    ensures
        import_target(root, current, "%workspace%/"@ + path) == (match join_path(root, path) {
            Some(joined) => ImportPathModel::File(ConfigPathModel::Project(joined)),
            None => ImportPathModel::Outside(path),
        }),
        import_target(root, current, "/"@ + path) == ImportPathModel::File(
            ConfigPathModel::Global("/"@ + path),
        ),
        path.len() > 0 && path[0] != '%' && path[0] != '/' ==> import_target(root, current, path)
            == (match current.sibling(path) {
            Some(file) => ImportPathModel::File(file),
            None => ImportPathModel::Invalid(leaves_top(path)),
        }),
{
    reveal_strlit("%workspace%/");
    reveal_strlit("%workspace%");
    reveal_strlit("/");
    lemma_strip_put_prefix("%workspace%/"@, path);
    lemma_strip_put_prefix("/"@, path);
    let absolute = "/"@ + path;
    assert(absolute[0] == '/');
    if "%workspace%/"@.is_prefix_of(absolute) {
        assert(absolute.subrange(0, 12)[0] == absolute[0]);
    }
    assert("%workspace%"@[0] == '%');
    if path.len() > 0 && path[0] != '%' && path[0] != '/' {
        if "%workspace%/"@.is_prefix_of(path) {
            assert(path.subrange(0, 12)[0] == path[0]);
        }
        if occurs_at(path, "/"@, 0) {
            assert(path.subrange(0, 1)[0] == path[0]);
        }
    }
}

/// A line with words is a record of its first word with the others, behind the records of
/// the lines before it; a line without words is none.
pub proof fn law_line_in_turn(
    root: Text,
    files: KnownFiles,
    outside: KnownPaths,
    s: Reading,
)
    requires
        s.frames.len() > 0,
        0 <= s.frames.last().next < s.frames.last().lines.len(),
    ensures
        ({
            let last = s.frames.last();
            let all = words(last.lines[last.next]);
            let frames = s.frames.drop_last().push(FrameModel { next: last.next + 1, ..last });
            &&& all.len() == 0 ==> reading(root, files, outside, s) == reading(
                root,
                files,
                outside,
                Reading { frames, ..s },
            )
            &&& all.len() > 0 && all[0] != "import"@ && all[0] != "try-import"@ ==> reading(
                root,
                files,
                outside,
                s,
            ) == reading(
                root,
                files,
                outside,
                Reading {
                    frames,
                    records: s.records.push(
                        BazelrcRecordModel { command: all[0], args: all.skip(1) },
                    ),
                    ..s
                },
            )
        }),
{
}

/// A file that is imported is read where the import stands, before the lines behind it,
/// and once only. One that is missing is an error where it has to be there, and else
/// counts for nothing.
pub proof fn law_import_in_place(
    root: Text,
    files: KnownFiles,
    outside: KnownPaths,
    s: Reading,
    path: ConfigPathModel,
)
    requires
        s.frames.len() > 0,
        0 <= s.frames.last().next < s.frames.last().lines.len(),
        ({
            let last = s.frames.last();
            let all = words(last.lines[last.next]);
            &&& all.len() == 2
            &&& all[0] == "import"@ || all[0] == "try-import"@
            &&& import_target(root, last.path, all[1]) == ImportPathModel::File(path)
        }),
    ensures
        ({
            let last = s.frames.last();
            let required = words(last.lines[last.next])[0] == "import"@;
            let frames = s.frames.drop_last().push(FrameModel { next: last.next + 1, ..last });
            let visited = set_put::<String>(s.visited, path.text());
            &&& s.visited.contains(path.text()) ==> reading(root, files, outside, s) == reading(
                root,
                files,
                outside,
                Reading { frames, ..s },
            )
            &&& !s.visited.contains(path.text()) ==> match lookup(files, path.text()) {
                None => reading(root, files, outside, s) == BazelrcFilesModel::NeedsFile(path),
                Some(None) => if required {
                    reading(root, files, outside, s) is Failed
                } else {
                    reading(root, files, outside, s) == reading(
                        root,
                        files,
                        outside,
                        Reading { frames, visited, ..s },
                    )
                },
                Some(Some(lines)) => reading(root, files, outside, s) == reading(
                    root,
                    files,
                    outside,
                    Reading {
                        frames: frames.push(FrameModel { path, lines, next: 0 }),
                        visited,
                        ..s
                    },
                ),
            }
        }),
{
}

} // verus!
