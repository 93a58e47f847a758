//! Relative paths and the places of configuration files.

use vstd::prelude::*;
use vstd::string::*;
use crate::module::InputError;
use crate::ordered::{Duplicate, lookup, result_view};
use crate::text::{
    Text, concat, concat3, join, join_of, rsplit_once, rsplit_once_of, same, split, split_of,
};

verus! {

/// The components of a directory after those of a relative path from `i` on:
/// empty ones and `.` stay where they are, `..` goes to the parent. None where
/// that leaves the directory at the top.
pub open spec fn walk(base: Seq<Text>, parts: Seq<Text>, i: int) -> Option<Seq<Text>>
    decreases parts.len() - i,
{
    if i < 0 || i >= parts.len() {
        Some(base)
    } else if parts[i].len() == 0 || parts[i] == "."@ {
        walk(base, parts, i + 1)
    } else if parts[i] == ".."@ {
        if base.len() == 0 {
            None
        } else {
            walk(base.drop_last(), parts, i + 1)
        }
    } else {
        walk(base.push(parts[i]), parts, i + 1)
    }
}

/// A relative path behind a directory, without `.` and `..` in the result.
pub open spec fn join_path(base: Text, path: Text) -> Option<Text> {
    match walk(seq![], split(base, '/'), 0) {
        None => None,
        Some(base) => match walk(base, split(path, '/'), 0) {
            None => None,
            Some(parts) => Some(join(parts, "/"@)),
        },
    }
}

/// A component that is neither empty, nor `.`, nor `..`.
pub open spec fn plain_component(part: Text) -> bool {
    part.len() > 0 && part != "."@ && part != ".."@
}

/// A walk from plain components ends in plain components.
pub proof fn law_walk_plain(base: Seq<Text>, parts: Seq<Text>, i: int)
    requires
        forall|j: int| 0 <= j < base.len() ==> plain_component(#[trigger] base[j]),
    ensures
        walk(base, parts, i) is Some ==> forall|j: int|
            0 <= j < walk(base, parts, i)->0.len() ==> plain_component(
                #[trigger] walk(base, parts, i)->0[j],
            ),
    decreases parts.len() - i,
{
    if i < 0 || i >= parts.len() {
    } else if parts[i].len() == 0 || parts[i] == "."@ {
        law_walk_plain(base, parts, i + 1);
    } else if parts[i] == ".."@ {
        if base.len() > 0 {
            law_walk_plain(base.drop_last(), parts, i + 1);
        }
    } else {
        law_walk_plain(base.push(parts[i]), parts, i + 1);
    }
}

/// Walks from the directory along the components.
fn walk_parts(base: &mut Vec<String>, parts: &Vec<String>) -> (r: bool)
    ensures
        r == (walk(old(base).deep_view(), parts.deep_view(), 0) is Some),
        r ==> walk(old(base).deep_view(), parts.deep_view(), 0) == Some(final(base).deep_view()),
{
    let ghost model = parts.deep_view();
    let ghost whole = walk(base.deep_view(), model, 0);
    let mut i: usize = 0;
    while i < parts.len()
        invariant
            model == parts.deep_view(),
            0 <= i <= parts@.len(),
            whole == walk(old(base).deep_view(), model, 0),
            whole == walk(base.deep_view(), model, i as int),
        decreases parts.len() - i,
    {
        let ghost before = base.deep_view();
        let part = parts[i].as_str();
        assert(model[i as int] == part@);
        if part.unicode_len() == 0 || same(part, ".") {
        } else if same(part, "..") {
            if base.len() == 0 {
                return false;
            }
            base.pop();
            assert(base.deep_view() =~= before.drop_last());
        } else {
            base.push(parts[i].clone());
            assert(base.deep_view() =~= before.push(part@));
        }
        i += 1;
    }
    true
}

/// A relative path behind a directory.
pub fn join_normalized(base: &str, path: &str) -> (r: Option<String>)
    ensures
        r.deep_view() == join_path(base@, path@),
{
    let mut parts: Vec<String> = Vec::new();
    assert(parts.deep_view() =~= seq![]);
    if !walk_parts(&mut parts, &split_of(base, '/')) {
        return None;
    }
    if !walk_parts(&mut parts, &split_of(path, '/')) {
        return None;
    }
    Some(join_of(&parts, "/"))
}

/// A path below a directory, with plain components only.
pub open spec fn is_forward(path: Text) -> bool {
    path.len() == 0 || forall|i: int|
        0 <= i < split(path, '/').len() ==> plain_component(#[trigger] split(path, '/')[i])
}

/// Whether the path is one below a directory, with plain components only.
pub fn is_forward_path(path: &str) -> (r: bool)
    ensures
        r == is_forward(path@),
{
    if path.unicode_len() == 0 {
        return true;
    }
    let parts = split_of(path, '/');
    let mut i: usize = 0;
    while i < parts.len()
        invariant
            path@.len() > 0,
            parts.deep_view() == split(path@, '/'),
            0 <= i <= parts@.len(),
            forall|j: int| 0 <= j < i ==> plain_component(#[trigger] split(path@, '/')[j]),
        decreases parts.len() - i,
    {
        let part = parts[i].as_str();
        assert(split(path@, '/')[i as int] == part@);
        if part.unicode_len() == 0 || same(part, ".") || same(part, "..") {
            assert(!plain_component(split(path@, '/')[i as int]));
            return false;
        }
        i += 1;
    }
    true
}

/// A path below a directory.
pub open spec fn below(base: Text, path: Text) -> Text {
    if base.len() == 0 {
        path
    } else if path.len() == 0 {
        base
    } else {
        base + "/"@ + path
    }
}

/// A path below a directory.
pub fn join_below(base: &str, path: &str) -> (r: String)
    ensures
        r@ == below(base@, path@),
{
    if base.unicode_len() == 0 {
        path.to_owned()
    } else if path.unicode_len() == 0 {
        base.to_owned()
    } else {
        concat3(base, "/", path)
    }
}

/// The directory that a path lies in.
pub open spec fn parent_path(path: Text) -> Text {
    match rsplit_once(path, "/"@) {
        Some((parent, name)) => parent,
        None => seq![],
    }
}

pub fn parent_of(path: &str) -> (r: &str)
    ensures
        r@ == parent_path(path@),
{
    match rsplit_once_of(path, "/") {
        Some((parent, _)) => parent,
        None => {
            let none = "";
            proof {
                reveal_strlit("");
            }
            assert(none@ =~= seq![]);
            none
        },
    }
}

/// Where a configuration file lies: in the project, or anywhere.
#[derive(Debug, PartialEq, Eq)]
pub enum ConfigPath {
    Project(String),
    Global(String),
}

/// The model of [`ConfigPath`].
pub enum ConfigPathModel {
    Project(Text),
    Global(Text),
}

impl DeepView for ConfigPath {
    type V = ConfigPathModel;

    open spec fn deep_view(&self) -> ConfigPathModel {
        match self {
            ConfigPath::Project(path) => ConfigPathModel::Project(path@),
            ConfigPath::Global(path) => ConfigPathModel::Global(path@),
        }
    }
}

impl Duplicate for ConfigPath {
    fn duplicate(&self) -> (r: Self) {
        match self {
            ConfigPath::Project(path) => ConfigPath::Project(path.clone()),
            ConfigPath::Global(path) => ConfigPath::Global(path.clone()),
        }
    }
}

impl ConfigPathModel {
    /// The path as a text.
    pub open spec fn text(self) -> Text {
        match self {
            ConfigPathModel::Project(path) => path,
            ConfigPathModel::Global(path) => path,
        }
    }

    /// What a path next to this one leads to.
    pub open spec fn sibling(self, path: Text) -> Option<ConfigPathModel> {
        match self {
            ConfigPathModel::Project(own) => match join_path(parent_path(own), path) {
                Some(joined) => Some(ConfigPathModel::Project(joined)),
                None => None,
            },
            ConfigPathModel::Global(own) => match join_path(parent_path(own), path) {
                Some(joined) => Some(ConfigPathModel::Global("/"@ + joined)),
                None => None,
            },
        }
    }
}

/// What a path that leads out of the top directory is answered.
pub open spec fn leaves_top(path: Text) -> Text {
    "expected a normalized path but got an un-normalized path instead: `"@ + path + "`"@
}

impl ConfigPath {
    /// The path as a text.
    pub fn display(&self) -> (r: &str)
        ensures
            r@ == self.deep_view().text(),
    {
        match self {
            ConfigPath::Project(path) => path.as_str(),
            ConfigPath::Global(path) => path.as_str(),
        }
    }

    /// What a path next to this one leads to.
    pub fn join_to_parent_normalized(&self, path: &str) -> (r: Result<ConfigPath, InputError>)
        ensures
            result_view(r) == (match self.deep_view().sibling(path@) {
                Some(joined) => Ok::<ConfigPathModel, Text>(joined),
                None => Err(leaves_top(path@)),
            }),
    {
        let (own, global) = match self {
            ConfigPath::Project(own) => (own, false),
            ConfigPath::Global(own) => (own, true),
        };
        match join_normalized(parent_of(own.as_str()), path) {
            Some(joined) => if global {
                Ok(ConfigPath::Global(concat("/", joined.as_str())))
            } else {
                Ok(ConfigPath::Project(joined))
            },
            None => Err(
                InputError { message: concat3("expected a normalized path but got an un-normalized path instead: `", path, "`") },
            ),
        }
    }
}

/// Files by their paths: their lines, or none where there is no such file.
pub type KnownFiles = Seq<(Text, Option<Seq<Text>>)>;

/// The names of the known files.
pub open spec fn file_names(files: KnownFiles) -> Seq<Text> {
    Seq::new(files.len(), |i: int| files[i].0)
}

pub proof fn lemma_file_names(files: KnownFiles, name: Text)
    requires
        lookup(files, name) is Some,
    ensures
        file_names(files).contains(name),
    decreases files.len(),
{
    if files[0].0 == name {
        assert(file_names(files)[0] == name);
    } else {
        lemma_file_names(files.skip(1), name);
        let rest = file_names(files.skip(1));
        let i = choose|i: int| 0 <= i < rest.len() && rest[i] == name;
        assert(file_names(files)[i + 1] == name);
    }
}

} // verus!
