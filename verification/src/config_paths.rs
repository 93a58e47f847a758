//! Where configuration files are looked for.

use vstd::prelude::*;
use vstd::string::*;
use crate::module::InputError;
use crate::ordered::{Duplicate, KeyMap, lookup};
use crate::paths::{
    ConfigPath, ConfigPathModel, below, is_forward, is_forward_path, join_below, leaves_top,
};
use crate::text::{Text, concat3, occurs_at, starts_with};

verus! {

/// A source of configuration: a file, or all files of a folder.
#[derive(Debug, PartialEq, Eq)]
pub enum ConfigSource {
    File(String),
    Folder(String),
}

/// The model of [`ConfigSource`].
pub enum ConfigSourceModel {
    File(Text),
    Folder(Text),
}

impl DeepView for ConfigSource {
    type V = ConfigSourceModel;

    open spec fn deep_view(&self) -> ConfigSourceModel {
        match self {
            ConfigSource::File(path) => ConfigSourceModel::File(path@),
            ConfigSource::Folder(path) => ConfigSourceModel::Folder(path@),
        }
    }
}

/// A source outside the project: below the user's home, or anywhere.
#[derive(Debug, PartialEq, Eq)]
pub enum ExternalConfigSource {
    User(ConfigSource),
    Global(ConfigSource),
}

/// The model of [`ExternalConfigSource`].
pub enum ExternalSourceModel {
    User(ConfigSourceModel),
    Global(ConfigSourceModel),
}

impl DeepView for ExternalConfigSource {
    type V = ExternalSourceModel;

    open spec fn deep_view(&self) -> ExternalSourceModel {
        match self {
            ExternalConfigSource::User(source) => ExternalSourceModel::User(source.deep_view()),
            ExternalConfigSource::Global(source) => ExternalSourceModel::Global(
                source.deep_view(),
            ),
        }
    }
}

/// What ends the search for configuration files before its time: a folder whose
/// files have to be looked up, or an error.
#[derive(Debug, PartialEq, Eq)]
pub enum ConfigPathStop {
    NeedsFolder(ConfigPath),
    Failed(InputError),
}

/// The model of [`ConfigPathStop`].
pub enum ConfigPathStopModel {
    NeedsFolder(ConfigPathModel),
    Failed(Text),
}

impl DeepView for ConfigPathStop {
    type V = ConfigPathStopModel;

    open spec fn deep_view(&self) -> ConfigPathStopModel {
        match self {
            ConfigPathStop::NeedsFolder(path) => ConfigPathStopModel::NeedsFolder(path.deep_view()),
            ConfigPathStop::Failed(e) => ConfigPathStopModel::Failed(e.deep_view()),
        }
    }
}

/// The files of the folders that are known, by the folders' paths.
pub type KnownFolders = Seq<(Text, Seq<ConfigPathModel>)>;

/// The files so far with those of a folder.
pub open spec fn with_folder(
    done: Seq<ConfigPathModel>,
    folders: KnownFolders,
    folder: ConfigPathModel,
) -> Result<Seq<ConfigPathModel>, ConfigPathStopModel> {
    match lookup(folders, folder.text()) {
        Some(files) => Ok(done + files),
        None => Err(ConfigPathStopModel::NeedsFolder(folder)),
    }
}

/// The files so far with those of a source below a base.
pub open spec fn with_source(
    done: Seq<ConfigPathModel>,
    folders: KnownFolders,
    source: ConfigSourceModel,
    base: ConfigPathModel,
) -> Result<Seq<ConfigPathModel>, ConfigPathStopModel> {
    let path = match source {
        ConfigSourceModel::File(path) => path,
        ConfigSourceModel::Folder(path) => path,
    };
    if !is_forward(path) {
        Err(ConfigPathStopModel::Failed(leaves_top(path)))
    } else {
        let full = match base {
            ConfigPathModel::Project(base) => ConfigPathModel::Project(below(base, path)),
            ConfigPathModel::Global(base) => ConfigPathModel::Global(below(base, path)),
        };
        match source {
            ConfigSourceModel::File(_) => Ok(done.push(full)),
            ConfigSourceModel::Folder(_) => with_folder(done, folders, full),
        }
    }
}

/// The configuration files of a cell from the sources from `i` on, behind those
/// before.
pub open spec fn project_paths(
    sources: Seq<ConfigSourceModel>,
    folders: KnownFolders,
    cell: Text,
    i: int,
    done: Seq<ConfigPathModel>,
) -> Result<Seq<ConfigPathModel>, ConfigPathStopModel>
    decreases sources.len() - i,
{
    if i < 0 || i >= sources.len() {
        Ok(done)
    } else {
        match with_source(done, folders, sources[i], ConfigPathModel::Project(cell)) {
            Err(stop) => Err(stop),
            Ok(next) => project_paths(sources, folders, cell, i + 1, next),
        }
    }
}

/// What a path that has to be absolute and is not is answered.
pub open spec fn not_absolute_path(path: Text) -> Text {
    "expected an absolute path but got a relative path instead: `"@ + path + "`"@
}

/// The files so far with those of an absolute source.
pub open spec fn with_global(
    done: Seq<ConfigPathModel>,
    folders: KnownFolders,
    source: ConfigSourceModel,
) -> Result<Seq<ConfigPathModel>, ConfigPathStopModel> {
    let path = match source {
        ConfigSourceModel::File(path) => path,
        ConfigSourceModel::Folder(path) => path,
    };
    if !occurs_at(path, "/"@, 0) {
        Err(ConfigPathStopModel::Failed(not_absolute_path(path)))
    } else {
        match source {
            ConfigSourceModel::File(_) => Ok(done.push(ConfigPathModel::Global(path))),
            ConfigSourceModel::Folder(_) => with_folder(
                done,
                folders,
                ConfigPathModel::Global(path),
            ),
        }
    }
}

/// The configuration files outside the project from the sources from `i` on,
/// behind those before. Sources below the user's home count where there is one.
pub open spec fn external_paths(
    sources: Seq<ExternalSourceModel>,
    folders: KnownFolders,
    home: Option<Text>,
    i: int,
    done: Seq<ConfigPathModel>,
) -> Result<Seq<ConfigPathModel>, ConfigPathStopModel>
    decreases sources.len() - i,
{
    if i < 0 || i >= sources.len() {
        Ok(done)
    } else {
        let next = match sources[i] {
            ExternalSourceModel::User(source) => match home {
                Some(home) => with_source(done, folders, source, ConfigPathModel::Global(home)),
                None => Ok(done),
            },
            ExternalSourceModel::Global(source) => with_global(done, folders, source),
        };
        match next {
            Err(stop) => Err(stop),
            Ok(next) => external_paths(sources, folders, home, i + 1, next),
        }
    }
}

/// The configuration files outside the project: those of the sources, unless
/// they are to be skipped, and one more that may be given.
pub open spec fn all_external_paths(
    skip_default: bool,
    sources: Seq<ExternalSourceModel>,
    folders: KnownFolders,
    home: Option<Text>,
    extra: Option<Text>,
) -> Result<Seq<ConfigPathModel>, ConfigPathStopModel> {
    let found = if skip_default {
        Ok(seq![])
    } else {
        external_paths(sources, folders, home, 0, seq![])
    };
    match found {
        Err(stop) => Err(stop),
        Ok(found) => match extra {
            None => Ok(found),
            Some(path) => with_global(found, folders, ConfigSourceModel::File(path)),
        },
    }
}

fn push_path(out: &mut Vec<ConfigPath>, path: ConfigPath)
    ensures
        final(out).deep_view() == old(out).deep_view().push(path.deep_view()),
{
    let ghost before = out.deep_view();
    let ghost added = path.deep_view();
    out.push(path);
    assert(out.deep_view() =~= before.push(added));
}

fn push_folder(
    out: &mut Vec<ConfigPath>,
    folders: &KeyMap<String, Vec<ConfigPath>>,
    folder: ConfigPath,
) -> (r: Result<(), ConfigPathStop>)
    ensures
        with_folder(old(out).deep_view(), folders.deep_view(), folder.deep_view()) == (match r {
            Ok(_) => Ok::<Seq<ConfigPathModel>, ConfigPathStopModel>(final(out).deep_view()),
            Err(stop) => Err(stop.deep_view()),
        }),
{
    match folders.get(&folder.display().to_owned()) {
        Some(files) => {
            let mut more = files.duplicate();
            let ghost a = out.deep_view();
            let ghost b = more.deep_view();
            out.append(&mut more);
            assert(out.deep_view() =~= a + b);
            Ok(())
        },
        None => Err(ConfigPathStop::NeedsFolder(folder)),
    }
}

fn push_source(
    out: &mut Vec<ConfigPath>,
    folders: &KeyMap<String, Vec<ConfigPath>>,
    source: &ConfigSource,
    base: &ConfigPath,
) -> (r: Result<(), ConfigPathStop>)
    ensures
        with_source(
            old(out).deep_view(),
            folders.deep_view(),
            source.deep_view(),
            base.deep_view(),
        ) == (match r {
            Ok(_) => Ok::<Seq<ConfigPathModel>, ConfigPathStopModel>(final(out).deep_view()),
            Err(stop) => Err(stop.deep_view()),
        }),
{
    let path = match source {
        ConfigSource::File(path) => path.as_str(),
        ConfigSource::Folder(path) => path.as_str(),
    };
    if !is_forward_path(path) {
        let message = concat3(
            "expected a normalized path but got an un-normalized path instead: `",
            path,
            "`",
        );
        return Err(ConfigPathStop::Failed(InputError { message }));
    }
    let full = match base {
        ConfigPath::Project(base) => ConfigPath::Project(join_below(base.as_str(), path)),
        ConfigPath::Global(base) => ConfigPath::Global(join_below(base.as_str(), path)),
    };
    match source {
        ConfigSource::File(_) => {
            push_path(out, full);
            Ok(())
        },
        ConfigSource::Folder(_) => push_folder(out, folders, full),
    }
}

fn push_global(
    out: &mut Vec<ConfigPath>,
    folders: &KeyMap<String, Vec<ConfigPath>>,
    source: &ConfigSource,
) -> (r: Result<(), ConfigPathStop>)
    ensures
        with_global(old(out).deep_view(), folders.deep_view(), source.deep_view()) == (match r {
            Ok(_) => Ok::<Seq<ConfigPathModel>, ConfigPathStopModel>(final(out).deep_view()),
            Err(stop) => Err(stop.deep_view()),
        }),
{
    let path = match source {
        ConfigSource::File(path) => path.as_str(),
        ConfigSource::Folder(path) => path.as_str(),
    };
    if !starts_with(path, "/") {
        let message = concat3(
            "expected an absolute path but got a relative path instead: `",
            path,
            "`",
        );
        return Err(ConfigPathStop::Failed(InputError { message }));
    }
    let full = ConfigPath::Global(path.to_owned());
    match source {
        ConfigSource::File(_) => {
            push_path(out, full);
            Ok(())
        },
        ConfigSource::Folder(_) => push_folder(out, folders, full),
    }
}

/// The configuration files of a cell, in the order in which they are read.
pub fn get_project_buckconfig_paths(
    cell_path: &str,
    sources: &Vec<ConfigSource>,
    folders: &KeyMap<String, Vec<ConfigPath>>,
) -> (r: Result<Vec<ConfigPath>, ConfigPathStop>)
    ensures
        project_paths(
            sources.deep_view(),
            folders.deep_view(),
            cell_path@,
            0,
            seq![],
        ) == (match r {
            Ok(paths) => Ok::<Seq<ConfigPathModel>, ConfigPathStopModel>(paths.deep_view()),
            Err(stop) => Err(stop.deep_view()),
        }),
{
    let ghost model = sources.deep_view();
    let ghost known = folders.deep_view();
    let ghost whole = project_paths(model, known, cell_path@, 0, seq![]);
    let base = ConfigPath::Project(cell_path.to_owned());
    let mut out: Vec<ConfigPath> = Vec::new();
    assert(out.deep_view() =~= seq![]);
    let mut i: usize = 0;
    while i < sources.len()
        invariant
            model == sources.deep_view(),
            known == folders.deep_view(),
            base.deep_view() == ConfigPathModel::Project(cell_path@),
            0 <= i <= sources@.len(),
            whole == project_paths(model, known, cell_path@, 0, seq![]),
            whole == project_paths(model, known, cell_path@, i as int, out.deep_view()),
        decreases sources.len() - i,
    {
        assert(model[i as int] == sources@[i as int].deep_view());
        match push_source(&mut out, folders, &sources[i], &base) {
            Ok(_) => {},
            Err(stop) => {
                return Err(stop);
            },
        }
        i += 1;
    }
    Ok(out)
}

fn push_external_paths(
    out: &mut Vec<ConfigPath>,
    sources: &Vec<ExternalConfigSource>,
    folders: &KeyMap<String, Vec<ConfigPath>>,
    home_dir: Option<&str>,
) -> (r: Result<(), ConfigPathStop>)
    ensures
        external_paths(
            sources.deep_view(),
            folders.deep_view(),
            home_dir.deep_view(),
            0,
            old(out).deep_view(),
        ) == (match r {
            Ok(_) => Ok::<Seq<ConfigPathModel>, ConfigPathStopModel>(final(out).deep_view()),
            Err(stop) => Err(stop.deep_view()),
        }),
{
    let ghost model = sources.deep_view();
    let ghost known = folders.deep_view();
    let ghost home = home_dir.deep_view();
    let ghost first = out.deep_view();
    let ghost whole = external_paths(model, known, home, 0, first);
    let mut i: usize = 0;
    while i < sources.len()
        invariant
            model == sources.deep_view(),
            known == folders.deep_view(),
            home == home_dir.deep_view(),
            first == old(out).deep_view(),
            0 <= i <= sources@.len(),
            whole == external_paths(model, known, home, 0, first),
            whole == external_paths(model, known, home, i as int, out.deep_view()),
        decreases sources.len() - i,
    {
        assert(model[i as int] == sources@[i as int].deep_view());
        let pushed = match &sources[i] {
            ExternalConfigSource::User(source) => match home_dir {
                Some(home_dir) => {
                    let base = ConfigPath::Global(home_dir.to_owned());
                    push_source(out, folders, source, &base)
                },
                None => Ok(()),
            },
            ExternalConfigSource::Global(source) => push_global(out, folders, source),
        };
        match pushed {
            Ok(_) => {},
            Err(stop) => {
                return Err(stop);
            },
        }
        i += 1;
    }
    Ok(())
}

/// The configuration files outside the project, in the order in which they are
/// read.
pub fn get_external_buckconfig_paths(
    skip_default_external_config: bool,
    sources: &Vec<ExternalConfigSource>,
    folders: &KeyMap<String, Vec<ConfigPath>>,
    home_dir: Option<&str>,
    extra_external_config: Option<&str>,
) -> (r: Result<Vec<ConfigPath>, ConfigPathStop>)
    ensures
        all_external_paths(
            skip_default_external_config,
            sources.deep_view(),
            folders.deep_view(),
            home_dir.deep_view(),
            extra_external_config.deep_view(),
        ) == (match r {
            Ok(paths) => Ok::<Seq<ConfigPathModel>, ConfigPathStopModel>(paths.deep_view()),
            Err(stop) => Err(stop.deep_view()),
        }),
{
    let mut out: Vec<ConfigPath> = Vec::new();
    assert(out.deep_view() =~= seq![]);
    if !skip_default_external_config {
        match push_external_paths(&mut out, sources, folders, home_dir) {
            Ok(_) => {},
            Err(stop) => {
                return Err(stop);
            },
        }
    }
    match extra_external_config {
        Some(path) => match push_global(
            &mut out,
            folders,
            &ConfigSource::File(path.to_owned()),
        ) {
            Ok(_) => Ok(out),
            Err(stop) => Err(stop),
        },
        None => Ok(out),
    }
}

} // verus!
