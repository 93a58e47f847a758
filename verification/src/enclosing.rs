//! The packages that a path lies in.

use vstd::prelude::*;
use vstd::string::*;
use crate::listing_strategy::{law_lies_in_transitive, lies_in, path_lies_in};
use crate::module::InputError;
use crate::ordered::{KeyMap, lookup};
use crate::package_listing::{
    CellPath, CellPathModel, KnownDir, KnownDirModel, KnownDirs, build_file, find_buildfile,
};
use crate::paths::{parent_of, parent_path};
use crate::text::{Text, concat3, join, join_of, lemma_rfind_from, occurs_at, rfind};

verus! {

/// What ends the search for a package before its time: a directory that has to
/// be looked up, one that could not be read, or an error.
#[derive(Debug, PartialEq, Eq)]
pub enum EnclosingStop {
    NeedsDir(String),
    Unreadable(String),
    Failed(InputError),
}

/// The model of [`EnclosingStop`].
pub enum EnclosingStopModel {
    NeedsDir(Text),
    Unreadable(Text),
    Failed(Text),
}

impl DeepView for EnclosingStop {
    type V = EnclosingStopModel;

    open spec fn deep_view(&self) -> EnclosingStopModel {
        match self {
            EnclosingStop::NeedsDir(path) => EnclosingStopModel::NeedsDir(path@),
            EnclosingStop::Unreadable(path) => EnclosingStopModel::Unreadable(path@),
            EnclosingStop::Failed(e) => EnclosingStopModel::Failed(e.deep_view()),
        }
    }
}

/// Whether a directory of a cell is a package.
pub open spec fn is_package(known: KnownDirs, candidates: Seq<Text>, dir: Text) -> Result<
    bool,
    EnclosingStopModel,
> {
    match lookup(known, dir) {
        None => Err(EnclosingStopModel::NeedsDir(dir)),
        Some(KnownDirModel::Failed(_)) => Err(EnclosingStopModel::Unreadable(dir)),
        Some(KnownDirModel::Entries(entries)) => Ok(build_file(candidates, entries, 0) is Some),
    }
}

proof fn lemma_parent_shorter(path: Text)
    ensures
        path.len() > 0 ==> parent_path(path).len() < path.len(),
{
    lemma_rfind_from(path, "/"@, path.len() as int);
    reveal_strlit("/");
}

/// The packages among the directory and those that it lies in, the innermost
/// first, as far as they lie in an enclosing one: all of them, or only the first.
pub open spec fn packages_from(
    known: KnownDirs,
    candidates: Seq<Text>,
    dir: Text,
    enclosing: Text,
    first_only: bool,
    done: Seq<Text>,
) -> Result<Seq<Text>, EnclosingStopModel>
    decreases dir.len(),
    via packages_from_decreases
{
    if !lies_in(dir, enclosing) {
        Ok(done)
    } else {
        match is_package(known, candidates, dir) {
            Err(stop) => Err(stop),
            Ok(package) => {
                let found = if package {
                    done.push(dir)
                } else {
                    done
                };
                if dir.len() == 0 || (package && first_only) {
                    Ok(found)
                } else {
                    packages_from(
                        known,
                        candidates,
                        parent_path(dir),
                        enclosing,
                        first_only,
                        found,
                    )
                }
            },
        }
    }
}

#[via_fn]
proof fn packages_from_decreases(
    known: KnownDirs,
    candidates: Seq<Text>,
    dir: Text,
    enclosing: Text,
    first_only: bool,
    done: Seq<Text>,
) {
    lemma_parent_shorter(dir);
}

/// What a path outside any package is answered.
pub open spec fn no_package(path: CellPathModel, candidates: Seq<Text>) -> Text {
    "Expected `"@ + path.text()
        + "` to be within a package directory, but there was no buildfile in any parent directories. Expected one of `"@
        + join(candidates, "`, `"@) + "`"@
}

/// The package that a path lies in.
pub open spec fn enclosing_package(known: KnownDirs, candidates: Seq<Text>, path: CellPathModel) -> Result<
    Text,
    EnclosingStopModel,
> {
    if path.path.len() == 0 {
        Err(EnclosingStopModel::Failed(no_package(path, candidates)))
    } else {
        match packages_from(known, candidates, parent_path(path.path), seq![], true, seq![]) {
            Err(stop) => Err(stop),
            Ok(found) => if found.len() == 0 {
                Err(EnclosingStopModel::Failed(no_package(path, candidates)))
            } else {
                Ok(found[0])
            },
        }
    }
}

/// The packages that a path lies in, the innermost first, as far as they lie in
/// an enclosing directory.
pub open spec fn enclosing_packages(
    known: KnownDirs,
    candidates: Seq<Text>,
    path: CellPathModel,
    enclosing: Text,
) -> Result<Seq<Text>, EnclosingStopModel> {
    if path.path.len() == 0 {
        Err(EnclosingStopModel::Failed(no_package(path, candidates)))
    } else {
        packages_from(known, candidates, parent_path(path.path), enclosing, false, seq![])
    }
}

fn find_packages(
    known: &KeyMap<String, KnownDir>,
    candidates: &Vec<String>,
    dir: &str,
    enclosing: &str,
    first_only: bool,
) -> (r: Result<Vec<String>, EnclosingStop>)
    ensures
        packages_from(
            known.deep_view(),
            candidates.deep_view(),
            dir@,
            enclosing@,
            first_only,
            seq![],
        ) == (match r {
            Ok(found) => Ok::<Seq<Text>, EnclosingStopModel>(found.deep_view()),
            Err(stop) => Err(stop.deep_view()),
        }),
{
    let ghost k = known.deep_view();
    let ghost c = candidates.deep_view();
    let ghost whole = packages_from(k, c, dir@, enclosing@, first_only, seq![]);
    let mut out: Vec<String> = Vec::new();
    assert(out.deep_view() =~= seq![]);
    let mut current = dir;
    while path_lies_in(current, enclosing)
        invariant
            k == known.deep_view(),
            c == candidates.deep_view(),
            whole == packages_from(k, c, dir@, enclosing@, first_only, seq![]),
            whole == packages_from(
                k,
                c,
                current@,
                enclosing@,
                first_only,
                out.deep_view(),
            ),
        decreases current@.len(),
    {
        let ghost before = out.deep_view();
        proof {
            lemma_parent_shorter(current@);
        }
        let package = match known.get(&current.to_owned()) {
            None => {
                return Err(EnclosingStop::NeedsDir(current.to_owned()));
            },
            Some(KnownDir::Failed(_)) => {
                return Err(EnclosingStop::Unreadable(current.to_owned()));
            },
            Some(KnownDir::Entries(entries)) => find_buildfile(candidates, entries).is_some(),
        };
        if package {
            out.push(current.to_owned());
            assert(out.deep_view() =~= before.push(current@));
        }
        if current.unicode_len() == 0 || (package && first_only) {
            return Ok(out);
        }
        current = parent_of(current);
    }
    Ok(out)
}

fn no_package_error(path: &CellPath, candidates: &Vec<String>) -> (r: EnclosingStop)
    ensures
        r.deep_view() == EnclosingStopModel::Failed(
            no_package(path.deep_view(), candidates.deep_view()),
        ),
{
    let mut message = concat3(
        "Expected `",
        path.display().as_str(),
        "` to be within a package directory, but there was no buildfile in any parent directories. Expected one of `",
    );
    message.append(join_of(candidates, "`, `").as_str());
    message.append("`");
    EnclosingStop::Failed(InputError { message })
}

/// The package that a path lies in, or a directory that has to be looked up
/// first, or an error.
pub fn get_enclosing_package(
    known: &KeyMap<String, KnownDir>,
    buildfile_candidates: &Vec<String>,
    path: &CellPath,
) -> (r: Result<String, EnclosingStop>)
    ensures
        enclosing_package(
            known.deep_view(),
            buildfile_candidates.deep_view(),
            path.deep_view(),
        ) == (match r {
            Ok(package) => Ok::<Text, EnclosingStopModel>(package@),
            Err(stop) => Err(stop.deep_view()),
        }),
{
    proof {
        reveal_strlit("");
        assert(""@ =~= seq![]);
    }
    if path.path.as_str().unicode_len() == 0 {
        return Err(no_package_error(path, buildfile_candidates));
    }
    match find_packages(known, buildfile_candidates, parent_of(path.path.as_str()), "", true) {
        Ok(found) => {
            assert(found.deep_view().len() == found@.len());
            if found.len() == 0 {
                Err(no_package_error(path, buildfile_candidates))
            } else {
                assert(found.deep_view()[0] == found@[0]@);
                Ok(found[0].clone())
            }
        },
        Err(stop) => Err(stop),
    }
}

/// The packages that a path lies in, the innermost first, as far as they lie in
/// an enclosing directory.
pub fn get_enclosing_packages(
    known: &KeyMap<String, KnownDir>,
    buildfile_candidates: &Vec<String>,
    path: &CellPath,
    enclosing_path: &str,
) -> (r: Result<Vec<String>, EnclosingStop>)
    ensures
        enclosing_packages(
            known.deep_view(),
            buildfile_candidates.deep_view(),
            path.deep_view(),
            enclosing_path@,
        ) == (match r {
            Ok(found) => Ok::<Seq<Text>, EnclosingStopModel>(found.deep_view()),
            Err(stop) => Err(stop.deep_view()),
        }),
{
    if path.path.as_str().unicode_len() == 0 {
        return Err(no_package_error(path, buildfile_candidates));
    }
    find_packages(
        known,
        buildfile_candidates,
        parent_of(path.path.as_str()),
        enclosing_path,
        false,
    )
}

proof fn lemma_parent_holds(path: Text, dir: Text)
    requires
        path.len() > 0,
        lies_in(path, dir),
        path != dir,
    ensures
        lies_in(parent_path(path), dir),
{
    reveal_strlit("/");
    assert("/"@ =~= seq!['/']);
    lemma_rfind_from(path, "/"@, path.len() - "/"@.len());
    if dir.len() > 0 {
        let n = dir.len() as int;
        assert(path.subrange(n, n + 1) =~= "/"@);
        assert(occurs_at(path, "/"@, n));
        let k = rfind(path, "/"@)->0;
        assert(k >= n);
        let parent = parent_path(path);
        assert(parent == path.take(k));
        if k == n {
            assert(parent =~= dir);
        } else {
            assert(parent.take(n) =~= path.take(n));
            assert(parent[n] == path[n]);
        }
    }
}

proof fn lemma_parent_encloses(path: Text)
    ensures
        lies_in(path, parent_path(path)),
{
    reveal_strlit("/");
    assert("/"@ =~= seq!['/']);
    lemma_rfind_from(path, "/"@, path.len() - "/"@.len());
    if let Some(k) = rfind(path, "/"@) {
        assert(path.subrange(k, k + 1)[0] == path[k]);
        assert(path.take(k).len() == k);
    }
}

/// The packages that are found are those that the directory lies in, as far as they lie in
/// the enclosing one; where one is enough, it is the innermost.
proof fn lemma_packages_from(
    known: KnownDirs,
    candidates: Seq<Text>,
    dir: Text,
    enclosing: Text,
    first_only: bool,
    done: Seq<Text>,
    d: Text,
)
    ensures
        packages_from(known, candidates, dir, enclosing, first_only, done) matches Ok(found) ==> {
            &&& done.len() <= found.len()
            &&& forall|i: int| 0 <= i < done.len() ==> #[trigger] found[i] == done[i]
            &&& forall|i: int|
                done.len() <= i < found.len() ==> is_package(known, candidates, #[trigger] found[i])
                    == Ok::<bool, EnclosingStopModel>(true) && lies_in(dir, found[i]) && lies_in(
                    found[i],
                    enclosing,
                )
            &&& is_package(known, candidates, d) == Ok::<bool, EnclosingStopModel>(true) && lies_in(
                dir,
                d,
            ) && lies_in(d, enclosing) ==> {
                &&& found.len() > done.len()
                &&& lies_in(found[done.len() as int], d)
                &&& !first_only ==> exists|i: int|
                    done.len() <= i < found.len() && #[trigger] found[i] == d
            }
        },
    decreases dir.len(),
{
    if lies_in(dir, enclosing) {
        if let Ok(package) = is_package(known, candidates, dir) {
            let next = if package {
                done.push(dir)
            } else {
                done
            };
            if dir.len() == 0 || (package && first_only) {
                if lies_in(dir, d) && dir.len() == 0 {
                    assert(d =~= dir);
                }
                if package {
                    assert(next[done.len() as int] == dir);
                }
            } else {
                let parent = parent_path(dir);
                lemma_parent_shorter(dir);
                lemma_parent_encloses(dir);
                lemma_packages_from(known, candidates, parent, enclosing, first_only, next, d);
                if let Ok(found) = packages_from(
                    known,
                    candidates,
                    dir,
                    enclosing,
                    first_only,
                    done,
                ) {
                    assert forall|i: int| done.len() <= i < found.len() implies is_package(
                        known,
                        candidates,
                        #[trigger] found[i],
                    ) == Ok::<bool, EnclosingStopModel>(true) && lies_in(dir, found[i]) && lies_in(
                        found[i],
                        enclosing,
                    ) by {
                        if i < next.len() {
                            assert(found[i] == next[i]);
                        } else {
                            law_lies_in_transitive(dir, parent, found[i]);
                        }
                    }
                    if is_package(known, candidates, d) == Ok::<bool, EnclosingStopModel>(true)
                        && lies_in(dir, d) && lies_in(d, enclosing) {
                        if d != dir {
                            lemma_parent_holds(dir, d);
                        }
                        if package {
                            assert(found[done.len() as int] == next[done.len() as int]);
                        }
                    }
                }
            }
        }
    } else if lies_in(dir, d) && lies_in(d, enclosing) {
        law_lies_in_transitive(dir, d, enclosing);
    }
}

/// The package of a path is a directory with a build file that the path lies in, and the
/// innermost of these.
pub proof fn law_innermost_package(
    known: KnownDirs,
    candidates: Seq<Text>,
    path: CellPathModel,
    dir: Text,
)
    ensures
        enclosing_package(known, candidates, path) matches Ok(package) ==> {
            &&& is_package(known, candidates, package) == Ok::<bool, EnclosingStopModel>(true)
            &&& lies_in(parent_path(path.path), package)
            &&& is_package(known, candidates, dir) == Ok::<bool, EnclosingStopModel>(true)
                && lies_in(parent_path(path.path), dir) ==> lies_in(package, dir)
        },
{
    lemma_packages_from(
        known,
        candidates,
        parent_path(path.path),
        seq![],
        true,
        seq![],
        dir,
    );
}

/// The packages of a path are all directories with a build file that it lies in and that
/// lie in the enclosing directory, and no others.
pub proof fn law_all_packages(
    known: KnownDirs,
    candidates: Seq<Text>,
    path: CellPathModel,
    enclosing: Text,
    dir: Text,
)
    ensures
        enclosing_packages(known, candidates, path, enclosing) matches Ok(found) ==> (found.contains(
            dir,
        ) <==> is_package(known, candidates, dir) == Ok::<bool, EnclosingStopModel>(true)
            && lies_in(parent_path(path.path), dir) && lies_in(dir, enclosing)),
{
    lemma_packages_from(
        known,
        candidates,
        parent_path(path.path),
        enclosing,
        false,
        seq![],
        dir,
    );
}

} // verus!
