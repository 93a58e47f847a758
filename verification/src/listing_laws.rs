//! What holds of every listing of a package.

use vstd::prelude::*;
use crate::listing_strategy::{Strategy, law_lies_in_comparable, law_lies_in_transitive, lies_in};
use crate::ordered::{law_sorted_set_of, lookup, sorted_set_of};
use crate::package_listing::{
    DirEntryModel, Found, GatherPlan, GatherStopModel, KnownDirModel, KnownDirs, PackageListing,
    build_file, children, chosen, gathered, gathered_all, has_entry, package_found,
};
use crate::paths::below;
use crate::text::Text;

verus! {

/// A name that an entry of a directory can have.
pub open spec fn proper_name(name: Text) -> bool {
    name.len() > 0 && !name.contains('/')
}

/// Entries as directories have them: under proper names, none twice.
pub open spec fn proper_entries(entries: Seq<DirEntryModel>) -> bool {
    &&& forall|i: int| 0 <= i < entries.len() ==> proper_name((#[trigger] entries[i]).file_name)
    &&& forall|i: int, j: int|
        0 <= i < j < entries.len() ==> (#[trigger] entries[i]).file_name != (
        #[trigger] entries[j]).file_name
}

/// The entries of each directory that is known are proper.
pub open spec fn proper_dirs(known: KnownDirs) -> bool {
    forall|path: Text| #[trigger]
        lookup(known, path) matches Some(KnownDirModel::Entries(entries)) ==> proper_entries(
            entries,
        )
}

/// How many known directories have a path of at least that length.
spec fn deeper(known: KnownDirs, len: nat) -> nat
    decreases known.len(),
{
    if known.len() == 0 {
        0
    } else {
        deeper(known.skip(1), len) + (if known[0].0.len() >= len {
            1nat
        } else {
            0nat
        })
    }
}

proof fn lemma_deeper(known: KnownDirs, len: nat, more: nat)
    requires
        len <= more,
    ensures
        deeper(known, more) <= deeper(known, len) <= known.len(),
    decreases known.len(),
{
    if known.len() > 0 {
        lemma_deeper(known.skip(1), len, more);
    }
}

proof fn lemma_deeper_known(known: KnownDirs, path: Text)
    requires
        lookup(known, path) is Some,
    ensures
        deeper(known, path.len() + 1) < deeper(known, path.len()),
    decreases known.len(),
{
    if known.len() > 0 {
        lemma_deeper(known.skip(1), path.len(), path.len() + 1);
        if known[0].0 != path {
            lemma_deeper_known(known.skip(1), path);
        }
    }
}

proof fn lemma_child(path: Text, name: Text)
    requires
        proper_name(name),
    ensures
        below(path, name).len() > path.len(),
        lies_in(below(path, name), path),
{
    reveal_strlit("/");
    if path.len() > 0 {
        assert(below(path, name).take(path.len() as int) =~= path);
        assert(below(path, name)[path.len() as int] == '/');
    }
}

proof fn lemma_siblings(path: Text, a: Text, b: Text)
    requires
        proper_name(a),
        proper_name(b),
        a != b,
    ensures
        !lies_in(below(path, a), below(path, b)),
{
    reveal_strlit("/");
    let start = if path.len() == 0 {
        0
    } else {
        path.len() + 1
    };
    let x = below(path, a);
    let y = below(path, b);
    assert(x.skip(start as int) =~= a);
    assert(y.skip(start as int) =~= b);
    if x.len() > y.len() && x[y.len() as int] == '/' {
        assert(a[y.len() - start] == '/');
    }
}

/// The path of an entry of that kind.
spec fn entry_path(entries: Seq<DirEntryModel>, path: Text, dirs: bool, child: Text) -> bool {
    exists|i: int|
        0 <= i < entries.len() && (#[trigger] entries[i]).is_dir == dirs && child == below(
            path,
            entries[i].file_name,
        )
}

proof fn lemma_children(entries: Seq<DirEntryModel>, path: Text, dirs: bool)
    ensures
        forall|j: int|
            0 <= j < children(entries, path, dirs).len() ==> entry_path(
                entries,
                path,
                dirs,
                #[trigger] children(entries, path, dirs)[j],
            ),
    decreases entries.len(),
{
    if entries.len() > 0 {
        let init = entries.drop_last();
        lemma_children(init, path, dirs);
        let before = children(init, path, dirs);
        let all = children(entries, path, dirs);
        assert forall|j: int| 0 <= j < all.len() implies entry_path(
            entries,
            path,
            dirs,
            #[trigger] all[j],
        ) by {
            if j < before.len() {
                assert(all[j] == before[j]);
                let i = choose|i: int|
                    0 <= i < init.len() && (#[trigger] init[i]).is_dir == dirs && all[j] == below(
                        path,
                        init[i].file_name,
                    );
                assert(entries[i] == init[i]);
            } else {
                assert(entries[entries.len() - 1].is_dir == dirs);
            }
        }
    }
}

/// No path of the list lies in another one.
spec fn separate(paths: Seq<Text>) -> bool {
    forall|i: int, j: int|
        0 <= i < paths.len() && 0 <= j < paths.len() && i != j ==> !lies_in(
            #[trigger] paths[i],
            #[trigger] paths[j],
        )
}

proof fn lemma_children_separate(entries: Seq<DirEntryModel>, path: Text, dirs: bool)
    requires
        proper_entries(entries),
    ensures
        separate(children(entries, path, dirs)),
    decreases entries.len(),
{
    if entries.len() > 0 {
        let init = entries.drop_last();
        assert(proper_entries(init)) by {
            assert(forall|i: int| 0 <= i < init.len() ==> #[trigger] init[i] == entries[i]);
        }
        lemma_children_separate(init, path, dirs);
        lemma_children(init, path, dirs);
        let before = children(init, path, dirs);
        let all = children(entries, path, dirs);
        let last = entries.last();
        if last.is_dir == dirs {
            assert(all == before.push(below(path, last.file_name)));
            assert forall|j: int| 0 <= j < before.len() implies !lies_in(
                #[trigger] before[j],
                all.last(),
            ) && !lies_in(all.last(), before[j]) by {
                let i = choose|i: int|
                    0 <= i < init.len() && (#[trigger] init[i]).is_dir == dirs && before[j]
                        == below(path, init[i].file_name);
                assert(entries[i] == init[i]);
                assert(entries[i].file_name != entries[entries.len() - 1].file_name);
                lemma_siblings(path, entries[i].file_name, last.file_name);
                lemma_siblings(path, last.file_name, entries[i].file_name);
            }
        }
    }
}

proof fn lemma_chosen(paths: Seq<Text>, strategy: Strategy, recurses: bool)
    ensures
        forall|j: int|
            0 <= j < chosen(paths, strategy, recurses).len() ==> paths.contains(
                #[trigger] chosen(paths, strategy, recurses)[j],
            ),
        separate(paths) ==> separate(chosen(paths, strategy, recurses)),
    decreases paths.len(),
{
    if paths.len() > 0 {
        let init = paths.drop_last();
        lemma_chosen(init, strategy, recurses);
        let before = chosen(init, strategy, recurses);
        let all = chosen(paths, strategy, recurses);
        assert forall|j: int| 0 <= j < before.len() implies exists|i: int|
            0 <= i < paths.len() - 1 && paths[i] == #[trigger] before[j] by {
            assert(init.contains(before[j]));
            let i = choose|i: int| 0 <= i < init.len() && init[i] == before[j];
            assert(paths[i] == before[j]);
        }
        assert forall|j: int| 0 <= j < all.len() implies paths.contains(#[trigger] all[j]) by {
            if j < before.len() {
                assert(all[j] == before[j]);
            } else {
                assert(paths[paths.len() - 1] == all[j]);
            }
        }
        if separate(paths) {
            assert(separate(init)) by {
                assert(forall|i: int| 0 <= i < init.len() ==> #[trigger] init[i] == paths[i]);
            }
            assert forall|i: int, j: int|
                0 <= i < all.len() && 0 <= j < all.len() && i != j implies !lies_in(
                #[trigger] all[i],
                #[trigger] all[j],
            ) by {
                if i < before.len() && j < before.len() {
                    assert(all[i] == before[i] && all[j] == before[j]);
                } else if i < before.len() {
                    assert(all[i] == before[i]);
                    let k = choose|k: int| 0 <= k < paths.len() - 1 && paths[k] == before[i];
                    assert(!lies_in(paths[k], paths[paths.len() - 1]));
                } else {
                    assert(all[j] == before[j]);
                    let k = choose|k: int| 0 <= k < paths.len() - 1 && paths[k] == before[j];
                    assert(!lies_in(paths[paths.len() - 1], paths[k]));
                }
            }
        }
    }
}

/// The directories below a path that the strategy lists are longer than it.
proof fn lemma_listed(
    entries: Seq<DirEntryModel>,
    path: Text,
    strategy: Strategy,
) -> (listed: Seq<Text>)
    requires
        proper_entries(entries),
    ensures
        listed == chosen(children(entries, path, true), strategy, true),
        separate(listed),
        forall|j: int|
            0 <= j < listed.len() ==> (#[trigger] listed[j]).len() > path.len() && lies_in(
                listed[j],
                path,
            ) && entry_path(entries, path, true, listed[j]),
{
    let subdirs = children(entries, path, true);
    let listed = chosen(subdirs, strategy, true);
    lemma_children(entries, path, true);
    lemma_children_separate(entries, path, true);
    lemma_chosen(subdirs, strategy, true);
    assert forall|j: int| 0 <= j < listed.len() implies (#[trigger] listed[j]).len() > path.len()
        && lies_in(listed[j], path) && entry_path(entries, path, true, listed[j]) by {
        let k = choose|k: int| 0 <= k < subdirs.len() && subdirs[k] == listed[j];
        assert(entry_path(entries, path, true, subdirs[k]));
        let i = choose|i: int|
            0 <= i < entries.len() && (#[trigger] entries[i]).is_dir == true && listed[j] == below(
                path,
                entries[i].file_name,
            );
        lemma_child(path, entries[i].file_name);
    }
    listed
}

proof fn lemma_needs(plan: GatherPlan, path: Text, depth: nat)
    requires
        proper_dirs(plan.known),
        depth > deeper(plan.known, path.len()),
    ensures
        gathered(plan, path, depth) matches Err(GatherStopModel::NeedsDir(dir)) ==> lookup(
            plan.known,
            dir,
        ) is None,
    decreases depth, 0int,
{
    match lookup(plan.known, path) {
        Some(KnownDirModel::Entries(entries)) => {
            lemma_deeper_known(plan.known, path);
            let listed = lemma_listed(entries, path, plan.strategy);
            let found = Found {
                files: children(entries, path, false),
                dirs: if path.len() == 0 {
                    seq![]
                } else {
                    seq![path]
                },
                subpackages: seq![],
            };
            lemma_all_needs(plan, listed, (depth - 1) as nat, 0, found, path.len() + 1);
        },
        _ => {},
    }
}

proof fn lemma_all_needs(
    plan: GatherPlan,
    paths: Seq<Text>,
    depth: nat,
    i: int,
    done: Found,
    len: nat,
)
    requires
        proper_dirs(plan.known),
        depth > deeper(plan.known, len),
        forall|j: int| 0 <= j < paths.len() ==> (#[trigger] paths[j]).len() >= len,
    ensures
        gathered_all(plan, paths, depth, i, done) matches Err(
            GatherStopModel::NeedsDir(dir),
        ) ==> lookup(plan.known, dir) is None,
    decreases depth, paths.len() - i + 1,
{
    if 0 <= i < paths.len() {
        lemma_deeper(plan.known, len, paths[i].len());
        lemma_needs(plan, paths[i], depth);
        match gathered(plan, paths[i], depth) {
            Err(_) => {},
            Ok(None) => {
                let more = Found { subpackages: done.subpackages.push(paths[i]), ..done };
                lemma_all_needs(plan, paths, depth, i + 1, more, len);
            },
            Ok(Some(found)) => {
                let more = Found {
                    files: done.files + found.files,
                    dirs: done.dirs + found.dirs,
                    subpackages: done.subpackages + found.subpackages,
                };
                lemma_all_needs(plan, paths, depth, i + 1, more, len);
            },
        }
    }
}

/// A directory that a listing asks for is not known yet: once each directory
/// that is asked for has been looked up, the listing is there.
pub proof fn law_needs_unknown_dir(plan: GatherPlan)
    requires
        proper_dirs(plan.known),
    ensures
        package_found(plan) matches Err(GatherStopModel::NeedsDir(dir)) ==> lookup(
            plan.known,
            dir,
        ) is None,
{
    lemma_deeper(plan.known, 0, 0);
    let root: Text = seq![];
    lemma_needs(plan, root, plan.known.len() + 1);
}

/// No file lies in a package below.
pub open spec fn files_apart(found: Found) -> bool {
    forall|f: Text, s: Text|
        #![trigger found.files.contains(f), found.subpackages.contains(s)]
        found.files.contains(f) && found.subpackages.contains(s) ==> !lies_in(f, s)
}

/// All files and packages that were found lie in the directory.
pub open spec fn found_in(found: Found, dir: Text) -> bool {
    &&& forall|f: Text| #[trigger] found.files.contains(f) ==> lies_in(f, dir)
    &&& forall|s: Text| #[trigger] found.subpackages.contains(s) ==> lies_in(s, dir)
}

/// Nothing that was found lies in the directory, nor the directory in a package
/// that was found.
spec fn clear_of(found: Found, dir: Text) -> bool {
    &&& forall|f: Text| #[trigger] found.files.contains(f) ==> !lies_in(f, dir)
    &&& forall|s: Text| #[trigger]
        found.subpackages.contains(s) ==> !lies_in(s, dir) && !lies_in(dir, s)
}

proof fn lemma_join(done: Found, found: Found, here: Text, dir: Text, ahead: Seq<Text>) -> (all:
    Found)
    requires
        files_apart(done),
        files_apart(found),
        found_in(done, dir),
        found_in(found, here),
        lies_in(here, dir),
        clear_of(done, here),
        forall|j: int| 0 <= j < ahead.len() ==> clear_of(done, #[trigger] ahead[j]),
        forall|j: int|
            0 <= j < ahead.len() ==> !lies_in(#[trigger] ahead[j], here) && !lies_in(
                here,
                ahead[j],
            ),
    ensures
        all.files == done.files + found.files,
        all.dirs == done.dirs + found.dirs,
        all.subpackages == done.subpackages + found.subpackages,
        files_apart(all),
        found_in(all, dir),
        forall|j: int| 0 <= j < ahead.len() ==> clear_of(all, #[trigger] ahead[j]),
{
    let all = Found {
        files: done.files + found.files,
        dirs: done.dirs + found.dirs,
        subpackages: done.subpackages + found.subpackages,
    };
    assert forall|f: Text| #[trigger] all.files.contains(f) implies done.files.contains(f)
        || found.files.contains(f) by {
        let i = choose|i: int| 0 <= i < all.files.len() && all.files[i] == f;
        if i < done.files.len() {
            assert(done.files[i] == f);
        } else {
            assert(found.files[i - done.files.len()] == f);
        }
    }
    assert forall|s: Text| #[trigger] all.subpackages.contains(s) implies done.subpackages.contains(
        s,
    ) || found.subpackages.contains(s) by {
        let i = choose|i: int| 0 <= i < all.subpackages.len() && all.subpackages[i] == s;
        if i < done.subpackages.len() {
            assert(done.subpackages[i] == s);
        } else {
            assert(found.subpackages[i - done.subpackages.len()] == s);
        }
    }
    assert forall|f: Text| #[trigger] all.files.contains(f) implies lies_in(f, dir) by {
        if found.files.contains(f) {
            law_lies_in_transitive(f, here, dir);
        }
    }
    assert forall|s: Text| #[trigger] all.subpackages.contains(s) implies lies_in(s, dir) by {
        if found.subpackages.contains(s) {
            law_lies_in_transitive(s, here, dir);
        }
    }
    assert forall|f: Text, s: Text|
        #![trigger all.files.contains(f), all.subpackages.contains(s)]
        all.files.contains(f) && all.subpackages.contains(s) implies !lies_in(f, s) by {
        if lies_in(f, s) {
            if found.files.contains(f) && done.subpackages.contains(s) {
                law_lies_in_comparable(f, here, s);
            } else if done.files.contains(f) && found.subpackages.contains(s) {
                law_lies_in_transitive(f, s, here);
            }
        }
    }
    assert forall|j: int| 0 <= j < ahead.len() implies clear_of(all, #[trigger] ahead[j]) by {
        let next = ahead[j];
        assert forall|f: Text| #[trigger] all.files.contains(f) implies !lies_in(f, next) by {
            if found.files.contains(f) && lies_in(f, next) {
                law_lies_in_comparable(f, here, next);
            }
        }
        assert forall|s: Text| #[trigger] all.subpackages.contains(s) implies !lies_in(s, next)
            && !lies_in(next, s) by {
            if found.subpackages.contains(s) {
                if lies_in(s, next) {
                    law_lies_in_comparable(s, here, next);
                }
                if lies_in(next, s) {
                    law_lies_in_transitive(next, s, here);
                }
            }
        }
    }
    all
}

proof fn lemma_apart(plan: GatherPlan, path: Text, depth: nat)
    requires
        proper_dirs(plan.known),
    ensures
        gathered(plan, path, depth) matches Ok(Some(found)) ==> files_apart(found) && found_in(
            found,
            path,
        ),
    decreases depth, 0int,
{
    if depth > 0 {
        match lookup(plan.known, path) {
            Some(KnownDirModel::Entries(entries)) => {
                let listed = lemma_listed(entries, path, plan.strategy);
                let files = children(entries, path, false);
                let found = Found {
                    files,
                    dirs: if path.len() == 0 {
                        seq![]
                    } else {
                        seq![path]
                    },
                    subpackages: seq![],
                };
                lemma_children(entries, path, false);
                assert forall|f: Text| #[trigger] files.contains(f) implies entry_path(
                    entries,
                    path,
                    false,
                    f,
                ) && lies_in(f, path) by {
                    let j = choose|j: int| 0 <= j < files.len() && files[j] == f;
                    assert(entry_path(entries, path, false, files[j]));
                    let i = choose|i: int|
                        0 <= i < entries.len() && (#[trigger] entries[i]).is_dir == false && f
                            == below(path, entries[i].file_name);
                    lemma_child(path, entries[i].file_name);
                }
                assert forall|j: int| 0 <= j < listed.len() implies clear_of(
                    found,
                    #[trigger] listed[j],
                ) by {
                    assert forall|f: Text| #[trigger] files.contains(f) implies !lies_in(
                        f,
                        listed[j],
                    ) by {
                        let a = choose|a: int|
                            0 <= a < entries.len() && (#[trigger] entries[a]).is_dir == false && f
                                == below(path, entries[a].file_name);
                        let b = choose|b: int|
                            0 <= b < entries.len() && (#[trigger] entries[b]).is_dir == true
                                && listed[j] == below(path, entries[b].file_name);
                        assert(a != b);
                        lemma_siblings(path, entries[a].file_name, entries[b].file_name);
                    }
                }
                lemma_all_apart(plan, listed, (depth - 1) as nat, 0, found, path);
            },
            _ => {},
        }
    }
}

proof fn lemma_all_apart(
    plan: GatherPlan,
    paths: Seq<Text>,
    depth: nat,
    i: int,
    done: Found,
    dir: Text,
)
    requires
        0 <= i,
        proper_dirs(plan.known),
        separate(paths),
        forall|j: int| 0 <= j < paths.len() ==> lies_in(#[trigger] paths[j], dir),
        forall|j: int| i <= j < paths.len() ==> clear_of(done, #[trigger] paths[j]),
        files_apart(done),
        found_in(done, dir),
    ensures
        gathered_all(plan, paths, depth, i, done) matches Ok(found) ==> files_apart(found)
            && found_in(found, dir),
    decreases depth, paths.len() - i + 1,
{
    if i < paths.len() {
        lemma_apart(plan, paths[i], depth);
        let ahead = paths.skip(i + 1);
        assert forall|j: int| 0 <= j < ahead.len() implies clear_of(done, #[trigger] ahead[j])
            && !lies_in(ahead[j], paths[i]) && !lies_in(paths[i], ahead[j]) by {
            assert(ahead[j] == paths[j + i + 1]);
        }
        match gathered(plan, paths[i], depth) {
            Err(_) => {},
            Ok(None) => {
                let one = Found { files: seq![], dirs: seq![], subpackages: seq![paths[i]] };
                let more = lemma_join(done, one, paths[i], dir, ahead);
                let next = Found { subpackages: done.subpackages.push(paths[i]), ..done };
                assert(more.files =~= next.files);
                assert(more.dirs =~= next.dirs);
                assert(more.subpackages =~= next.subpackages);
                assert forall|j: int| i + 1 <= j < paths.len() implies clear_of(
                    next,
                    #[trigger] paths[j],
                ) by {
                    assert(ahead[j - i - 1] == paths[j]);
                }
                lemma_all_apart(plan, paths, depth, i + 1, next, dir);
            },
            Ok(Some(found)) => {
                let next = lemma_join(done, found, paths[i], dir, ahead);
                assert forall|j: int| i + 1 <= j < paths.len() implies clear_of(
                    next,
                    #[trigger] paths[j],
                ) by {
                    assert(ahead[j - i - 1] == paths[j]);
                }
                lemma_all_apart(plan, paths, depth, i + 1, next, dir);
            },
        }
    }
}

/// No file of a package's listing lies in one of the packages below it.
pub proof fn law_files_outside_subpackages(plan: GatherPlan)
    requires
        proper_dirs(plan.known),
    ensures
        package_found(plan) matches Ok((found, _)) ==> files_apart(found),
{
    let root: Text = seq![];
    lemma_apart(plan, root, plan.known.len() + 1);
}

/// The path of an entry of a directory.
pub open spec fn entry_at(dir: Text, name: Text) -> Text {
    if dir.len() == 0 {
        name
    } else {
        dir + "/"@ + name
    }
}

/// Some entry has the name of a build file.
pub open spec fn has_candidate(candidates: Seq<Text>, entries: Seq<DirEntryModel>) -> bool {
    exists|c: int, i: int|
        0 <= c < candidates.len() && 0 <= i < entries.len() && #[trigger] candidates[c] == (
        #[trigger] entries[i]).file_name
}

/// What a listing holds of an entry of a directory that it lists in turn: a file is among
/// the files; a directory that is not listed in turn is among the directories; one that
/// is, is among the packages below where it has a build file, and among the directories
/// where it has none.
pub open spec fn entry_listed(plan: GatherPlan, found: Found, dir: Text, entry: DirEntryModel) -> bool {
    let path = entry_at(dir, entry.file_name);
    if !entry.is_dir {
        found.files.contains(path)
    } else if !plan.strategy.recurses(path) {
        found.dirs.contains(path)
    } else {
        match lookup(plan.known, path) {
            Some(KnownDirModel::Entries(entries)) => if has_candidate(plan.candidates, entries) {
                found.subpackages.contains(path)
            } else {
                found.dirs.contains(path)
            },
            _ => false,
        }
    }
}

/// All entries of a directory are in the listing.
pub open spec fn dir_listed(plan: GatherPlan, found: Found, dir: Text) -> bool {
    match lookup(plan.known, dir) {
        Some(KnownDirModel::Entries(entries)) => forall|i: int|
            0 <= i < entries.len() ==> entry_listed(plan, found, dir, #[trigger] entries[i]),
        _ => false,
    }
}

spec fn grows(a: Found, b: Found) -> bool {
    &&& forall|p: Text| #[trigger] a.files.contains(p) ==> b.files.contains(p)
    &&& forall|p: Text| #[trigger] a.dirs.contains(p) ==> b.dirs.contains(p)
    &&& forall|p: Text| #[trigger] a.subpackages.contains(p) ==> b.subpackages.contains(p)
}

proof fn lemma_dir_listed_grows(plan: GatherPlan, a: Found, b: Found, dir: Text)
    requires
        grows(a, b),
        dir_listed(plan, a, dir),
    ensures
        dir_listed(plan, b, dir),
{
    if let Some(KnownDirModel::Entries(entries)) = lookup(plan.known, dir) {
        assert forall|i: int| 0 <= i < entries.len() implies entry_listed(
            plan,
            b,
            dir,
            #[trigger] entries[i],
        ) by {
            assert(entry_listed(plan, a, dir, entries[i]));
        }
    }
}

proof fn lemma_contains_sum(a: Seq<Text>, b: Seq<Text>)
    ensures
        forall|p: Text| #[trigger] (a + b).contains(p) <==> a.contains(p) || b.contains(p),
{
    assert forall|p: Text| #[trigger] (a + b).contains(p) <==> a.contains(p) || b.contains(p) by {
        if a.contains(p) {
            let i = choose|i: int| 0 <= i < a.len() && a[i] == p;
            assert((a + b)[i] == p);
        }
        if b.contains(p) {
            let i = choose|i: int| 0 <= i < b.len() && b[i] == p;
            assert((a + b)[a.len() + i] == p);
        }
        if (a + b).contains(p) {
            let i = choose|i: int| 0 <= i < (a + b).len() && (a + b)[i] == p;
            if i < a.len() {
                assert(a[i] == p);
            } else {
                assert(b[i - a.len()] == p);
            }
        }
    }
}

proof fn lemma_build_file(candidates: Seq<Text>, entries: Seq<DirEntryModel>, k: int)
    requires
        0 <= k <= candidates.len(),
    ensures
        build_file(candidates, entries, k) is Some <==> exists|c: int, i: int|
            k <= c < candidates.len() && 0 <= i < entries.len() && #[trigger] candidates[c] == (
            #[trigger] entries[i]).file_name,
    decreases candidates.len() - k,
{
    if k < candidates.len() {
        lemma_build_file(candidates, entries, k + 1);
        if has_entry(entries, candidates[k]) {
            let i = choose|i: int|
                0 <= i < entries.len() && (#[trigger] entries[i]).file_name == candidates[k];
            assert(candidates[k] == entries[i].file_name);
        } else if build_file(candidates, entries, k + 1) is Some {
            let (c, i) = choose|c: int, i: int|
                k + 1 <= c < candidates.len() && 0 <= i < entries.len() && #[trigger] candidates[c]
                    == (#[trigger] entries[i]).file_name;
            assert(candidates[c] == entries[i].file_name);
        }
    }
}

proof fn lemma_all_children(entries: Seq<DirEntryModel>, path: Text, dirs: bool)
    ensures
        forall|i: int|
            0 <= i < entries.len() && (#[trigger] entries[i]).is_dir == dirs ==> children(
                entries,
                path,
                dirs,
            ).contains(below(path, entries[i].file_name)),
    decreases entries.len(),
{
    if entries.len() > 0 {
        let init = entries.drop_last();
        lemma_all_children(init, path, dirs);
        let before = children(init, path, dirs);
        let all = children(entries, path, dirs);
        assert forall|i: int|
            0 <= i < entries.len() && (#[trigger] entries[i]).is_dir == dirs implies all.contains(
            below(path, entries[i].file_name),
        ) by {
            if i < init.len() {
                assert(init[i].is_dir == dirs);
                let child = below(path, entries[i].file_name);
                assert(before.contains(child));
                let j = choose|j: int| 0 <= j < before.len() && before[j] == child;
                assert(all[j] == child);
            } else {
                assert(all[all.len() - 1] == below(path, entries[i].file_name));
            }
        }
    }
}

proof fn lemma_all_chosen(paths: Seq<Text>, strategy: Strategy, recurses: bool)
    ensures
        forall|p: Text| #[trigger]
            chosen(paths, strategy, recurses).contains(p) <==> paths.contains(p)
                && strategy.recurses(p) == recurses,
    decreases paths.len(),
{
    let all = chosen(paths, strategy, recurses);
    if paths.len() > 0 {
        let init = paths.drop_last();
        let last = paths.last();
        lemma_all_chosen(init, strategy, recurses);
        let before = chosen(init, strategy, recurses);
        assert(paths =~= init + seq![last]);
        lemma_contains_sum(init, seq![last]);
        assert(seq![last][0] == last);
        if strategy.recurses(last) == recurses {
            assert(all =~= before + seq![last]);
            lemma_contains_sum(before, seq![last]);
        }
        assert forall|p: Text| #[trigger] all.contains(p) <==> paths.contains(p)
            && strategy.recurses(p) == recurses by {
            assert(before.contains(p) <==> init.contains(p) && strategy.recurses(p) == recurses);
        }
    }
}

/// Every directory that was found and is listed in turn is in the listing with all its
/// entries, the one at `top` apart.
spec fn listed_below(plan: GatherPlan, found: Found, top: Text) -> bool {
    forall|d: Text| #[trigger]
        found.dirs.contains(d) && plan.strategy.recurses(d) && d != top ==> dir_listed(
            plan,
            found,
            d,
        )
}

proof fn lemma_listed_join(plan: GatherPlan, a: Found, b: Found, all: Found, top: Text, sub: Text)
    requires
        listed_below(plan, a, top),
        listed_below(plan, b, sub),
        sub != top ==> dir_listed(plan, b, sub),
        grows(a, all),
        grows(b, all),
        forall|d: Text| #[trigger] all.dirs.contains(d) ==> a.dirs.contains(d) || b.dirs.contains(d),
    ensures
        listed_below(plan, all, top),
{
    assert forall|d: Text| #[trigger]
        all.dirs.contains(d) && plan.strategy.recurses(d) && d != top implies dir_listed(
        plan,
        all,
        d,
    ) by {
        if a.dirs.contains(d) {
            lemma_dir_listed_grows(plan, a, all, d);
        } else {
            assert(b.dirs.contains(d));
            lemma_dir_listed_grows(plan, b, all, d);
        }
    }
}

proof fn lemma_gathered_listed(plan: GatherPlan, path: Text, depth: nat)
    requires
        proper_dirs(plan.known),
    ensures
        match gathered(plan, path, depth) {
            Ok(Some(found)) => dir_listed(plan, found, path) && listed_below(plan, found, path) && (
            path.len() > 0 ==> found.dirs.contains(path) && match lookup(plan.known, path) {
                Some(KnownDirModel::Entries(entries)) => !has_candidate(plan.candidates, entries),
                _ => false,
            }),
            Ok(None) => path.len() > 0 && match lookup(plan.known, path) {
                Some(KnownDirModel::Entries(entries)) => has_candidate(plan.candidates, entries),
                _ => false,
            },
            Err(_) => true,
        },
    decreases depth, 0int,
{
    if depth > 0 {
        if let Some(KnownDirModel::Entries(entries)) = lookup(plan.known, path) {
            lemma_build_file(plan.candidates, entries, 0);
            assert(build_file(plan.candidates, entries, 0) is Some <==> has_candidate(
                plan.candidates,
                entries,
            ));
            let subdirs = children(entries, path, true);
            let files = children(entries, path, false);
            let listed = chosen(subdirs, plan.strategy, true);
            let start = Found {
                files,
                dirs: if path.len() == 0 {
                    seq![]
                } else {
                    seq![path]
                },
                subpackages: seq![],
            };
            assert(listed_below(plan, start, path)) by {
                assert forall|d: Text| #[trigger]
                    start.dirs.contains(d) && plan.strategy.recurses(d) && d != path implies dir_listed(
                    plan,
                    start,
                    d,
                ) by {}
            }
            assert(proper_entries(entries));
            let same = lemma_listed(entries, path, plan.strategy);
            lemma_all_listed(plan, listed, (depth - 1) as nat, 0, start, path);
            if let Ok(all) = gathered_all(plan, listed, (depth - 1) as nat, 0, start) {
                if gathered(plan, path, depth) matches Ok(Some(_)) {
                    let shallow = chosen(subdirs, plan.strategy, false);
                    let found = Found { dirs: all.dirs + shallow, ..all };
                    lemma_contains_sum(all.dirs, shallow);
                    lemma_all_chosen(subdirs, plan.strategy, true);
                    lemma_all_chosen(subdirs, plan.strategy, false);
                    lemma_all_children(entries, path, true);
                    lemma_all_children(entries, path, false);
                    assert(grows(all, found));
                    assert forall|d: Text| #[trigger]
                        found.dirs.contains(d) && plan.strategy.recurses(d) && d != path implies dir_listed(
                        plan,
                        found,
                        d,
                    ) by {
                        assert(all.dirs.contains(d));
                        lemma_dir_listed_grows(plan, all, found, d);
                    }
                    assert forall|i: int| 0 <= i < entries.len() implies entry_listed(
                        plan,
                        found,
                        path,
                        #[trigger] entries[i],
                    ) by {
                        let child = below(path, entries[i].file_name);
                        assert(proper_name(entries[i].file_name));
                        assert(child == entry_at(path, entries[i].file_name));
                        if entries[i].is_dir {
                            assert(subdirs.contains(child));
                            if plan.strategy.recurses(child) {
                                assert(listed.contains(child));
                            } else {
                                assert(shallow.contains(child));
                            }
                        } else {
                            assert(files.contains(child));
                        }
                    }
                    if path.len() > 0 {
                        assert(start.dirs[0] == path);
                        assert(start.dirs.contains(path));
                    }
                }
            }
        }
    }
}

proof fn lemma_all_listed(
    plan: GatherPlan,
    paths: Seq<Text>,
    depth: nat,
    i: int,
    done: Found,
    top: Text,
)
    requires
        0 <= i <= paths.len(),
        proper_dirs(plan.known),
        forall|j: int| 0 <= j < paths.len() ==> (#[trigger] paths[j]).len() > 0,
        listed_below(plan, done, top),
    ensures
        gathered_all(plan, paths, depth, i, done) matches Ok(all) ==> {
            &&& grows(done, all)
            &&& listed_below(plan, all, top)
            &&& forall|j: int|
                i <= j < paths.len() ==> match lookup(plan.known, #[trigger] paths[j]) {
                    Some(KnownDirModel::Entries(entries)) => if has_candidate(
                        plan.candidates,
                        entries,
                    ) {
                        all.subpackages.contains(paths[j])
                    } else {
                        all.dirs.contains(paths[j])
                    },
                    _ => false,
                }
        },
    decreases depth, paths.len() - i + 1,
{
    if i < paths.len() {
        lemma_gathered_listed(plan, paths[i], depth);
        match gathered(plan, paths[i], depth) {
            Err(_) => {},
            Ok(None) => {
                let next = Found { subpackages: done.subpackages.push(paths[i]), ..done };
                assert(next.subpackages =~= done.subpackages + seq![paths[i]]);
                lemma_contains_sum(done.subpackages, seq![paths[i]]);
                assert(seq![paths[i]][0] == paths[i]);
                assert(next.subpackages.contains(paths[i]));
                assert(grows(done, next));
                assert forall|d: Text| #[trigger]
                    next.dirs.contains(d) && plan.strategy.recurses(d) && d != top implies dir_listed(
                    plan,
                    next,
                    d,
                ) by {
                    assert(done.dirs.contains(d));
                    lemma_dir_listed_grows(plan, done, next, d);
                }
                lemma_all_listed(plan, paths, depth, i + 1, next, top);
            },
            Ok(Some(found)) => {
                let next = Found {
                    files: done.files + found.files,
                    dirs: done.dirs + found.dirs,
                    subpackages: done.subpackages + found.subpackages,
                };
                lemma_contains_sum(done.files, found.files);
                lemma_contains_sum(done.dirs, found.dirs);
                lemma_contains_sum(done.subpackages, found.subpackages);
                assert(grows(done, next));
                assert(grows(found, next));
                lemma_listed_join(plan, done, found, next, top, paths[i]);
                lemma_all_listed(plan, paths, depth, i + 1, next, top);
            },
        }
    }
}

/// A listing is complete: of the package itself, and of each directory at any depth that
/// it lists in turn, every entry is in it. A directory with a build file is among the
/// packages below, wherever it lies.
pub proof fn law_listing_is_complete(plan: GatherPlan, dir: Text)
    requires
        package_found(plan) is Ok,
        dir.len() == 0 || (package_found(plan)->Ok_0.0.dirs.contains(dir) && plan.strategy.recurses(
            dir,
        )),
        proper_dirs(plan.known),
    ensures
        dir_listed(plan, package_found(plan)->Ok_0.0, dir),
{
    let root: Text = seq![];
    lemma_gathered_listed(plan, root, plan.known.len() + 1);
    assert(dir.len() == 0 ==> dir =~= root);
}

/// The path is that of an entry of the directory, of that kind.
pub open spec fn is_entry(known: KnownDirs, dir: Text, i: int, is_dir: bool, path: Text) -> bool {
    match lookup(known, dir) {
        Some(KnownDirModel::Entries(entries)) => 0 <= i < entries.len() && entries[i].is_dir
            == is_dir && path == entry_at(dir, entries[i].file_name),
        _ => false,
    }
}

/// The path is that of an entry of the directory at `top`, or of one that the listing
/// lists in turn.
pub open spec fn comes_from(
    plan: GatherPlan,
    found: Found,
    top: Text,
    is_dir: bool,
    path: Text,
) -> bool {
    exists|dir: Text, i: int| #[trigger]
        is_entry(plan.known, dir, i, is_dir, path) && (dir == top || (found.dirs.contains(dir)
            && plan.strategy.recurses(dir)))
}

/// The directory is known and has a build file.
pub open spec fn is_package(plan: GatherPlan, dir: Text) -> bool {
    match lookup(plan.known, dir) {
        Some(KnownDirModel::Entries(entries)) => has_candidate(plan.candidates, entries),
        _ => false,
    }
}

/// Nothing is in the listing but what belongs there.
pub open spec fn listing_sound(plan: GatherPlan, found: Found, top: Text) -> bool {
    &&& forall|p: Text| #[trigger]
        found.files.contains(p) ==> comes_from(plan, found, top, false, p)
    &&& forall|p: Text| #[trigger]
        found.subpackages.contains(p) ==> comes_from(plan, found, top, true, p)
            && plan.strategy.recurses(p) && is_package(plan, p)
    &&& forall|p: Text| #[trigger]
        found.dirs.contains(p) && p != top ==> comes_from(plan, found, top, true, p) && !(
        plan.strategy.recurses(p) && is_package(plan, p))
}

proof fn lemma_comes_from(
    plan: GatherPlan,
    a: Found,
    b: Found,
    sub: Text,
    top: Text,
    is_dir: bool,
    path: Text,
)
    requires
        comes_from(plan, a, sub, is_dir, path),
        grows(a, b),
        sub == top || (b.dirs.contains(sub) && plan.strategy.recurses(sub)),
    ensures
        comes_from(plan, b, top, is_dir, path),
{
    let (dir, i) = choose|dir: Text, i: int| #[trigger]
        is_entry(plan.known, dir, i, is_dir, path) && (dir == sub || (a.dirs.contains(dir)
            && plan.strategy.recurses(dir)));
    assert(is_entry(plan.known, dir, i, is_dir, path));
}

/// Two listings taken together, the second at a directory of the first.
proof fn lemma_sound_join(plan: GatherPlan, a: Found, b: Found, all: Found, top: Text, sub: Text)
    requires
        listing_sound(plan, a, top),
        listing_sound(plan, b, sub),
        b.dirs.contains(sub),
        plan.strategy.recurses(sub),
        !is_package(plan, sub),
        comes_from(plan, a, top, true, sub),
        all.files == a.files + b.files,
        all.dirs == a.dirs + b.dirs,
        all.subpackages == a.subpackages + b.subpackages,
    ensures
        listing_sound(plan, all, top),
{
    lemma_contains_sum(a.files, b.files);
    lemma_contains_sum(a.dirs, b.dirs);
    lemma_contains_sum(a.subpackages, b.subpackages);
    assert(grows(a, all) && grows(b, all));
    assert(all.dirs.contains(sub));
    assert forall|p: Text| #[trigger] all.files.contains(p) implies comes_from(
        plan,
        all,
        top,
        false,
        p,
    ) by {
        if a.files.contains(p) {
            lemma_comes_from(plan, a, all, top, top, false, p);
        } else {
            lemma_comes_from(plan, b, all, sub, top, false, p);
        }
    }
    assert forall|p: Text| #[trigger] all.subpackages.contains(p) implies comes_from(
        plan,
        all,
        top,
        true,
        p,
    ) && plan.strategy.recurses(p) && is_package(plan, p) by {
        if a.subpackages.contains(p) {
            lemma_comes_from(plan, a, all, top, top, true, p);
        } else {
            lemma_comes_from(plan, b, all, sub, top, true, p);
        }
    }
    assert forall|p: Text| #[trigger] all.dirs.contains(p) && p != top implies comes_from(
        plan,
        all,
        top,
        true,
        p,
    ) && !(plan.strategy.recurses(p) && is_package(plan, p)) by {
        if a.dirs.contains(p) {
            lemma_comes_from(plan, a, all, top, top, true, p);
        } else if p == sub {
            lemma_comes_from(plan, a, all, top, top, true, p);
        } else {
            lemma_comes_from(plan, b, all, sub, top, true, p);
        }
    }
}

proof fn lemma_gathered_sound(plan: GatherPlan, path: Text, depth: nat)
    requires
        proper_dirs(plan.known),
    ensures
        gathered(plan, path, depth) matches Ok(Some(found)) ==> listing_sound(plan, found, path),
    decreases depth, 0int,
{
    if depth > 0 {
        if let Some(KnownDirModel::Entries(entries)) = lookup(plan.known, path) {
            let subdirs = children(entries, path, true);
            let files = children(entries, path, false);
            let listed = chosen(subdirs, plan.strategy, true);
            let shallow = chosen(subdirs, plan.strategy, false);
            let start = Found {
                files,
                dirs: if path.len() == 0 {
                    seq![]
                } else {
                    seq![path]
                },
                subpackages: seq![],
            };
            assert(proper_entries(entries));
            let same = lemma_listed(entries, path, plan.strategy);
            lemma_children(entries, path, true);
            lemma_children(entries, path, false);
            lemma_all_chosen(subdirs, plan.strategy, true);
            lemma_all_chosen(subdirs, plan.strategy, false);
            assert forall|p: Text, is_dir: bool|
                children(entries, path, is_dir).contains(p) implies #[trigger] comes_from(
                plan,
                start,
                path,
                is_dir,
                p,
            ) by {
                let kind = children(entries, path, is_dir);
                let j = choose|j: int| 0 <= j < kind.len() && kind[j] == p;
                assert(entry_path(entries, path, is_dir, kind[j]));
                let i = choose|i: int|
                    0 <= i < entries.len() && (#[trigger] entries[i]).is_dir == is_dir && p
                        == below(path, entries[i].file_name);
                assert(proper_name(entries[i].file_name));
                assert(is_entry(plan.known, path, i, is_dir, p));
            }
            assert(listing_sound(plan, start, path));
            assert forall|j: int| 0 <= j < listed.len() implies comes_from(
                plan,
                start,
                path,
                true,
                #[trigger] listed[j],
            ) && plan.strategy.recurses(listed[j]) && listed[j].len() > 0 by {
                assert(listed.contains(listed[j]));
                assert(subdirs.contains(listed[j]));
                assert(same[j].len() > path.len());
            }
            lemma_all_sound(plan, listed, (depth - 1) as nat, 0, start, path);
            if let Ok(all) = gathered_all(plan, listed, (depth - 1) as nat, 0, start) {
                let found = Found { dirs: all.dirs + shallow, ..all };
                lemma_all_grows(plan, listed, (depth - 1) as nat, 0, start);
                lemma_contains_sum(all.dirs, shallow);
                assert(grows(all, found) && grows(start, found));
                assert forall|p: Text| #[trigger] found.files.contains(p) implies comes_from(
                    plan,
                    found,
                    path,
                    false,
                    p,
                ) by {
                    assert(all.files.contains(p));
                    lemma_comes_from(plan, all, found, path, path, false, p);
                }
                assert forall|p: Text| #[trigger]
                    found.subpackages.contains(p) implies comes_from(plan, found, path, true, p)
                    && plan.strategy.recurses(p) && is_package(plan, p) by {
                    assert(all.subpackages.contains(p));
                    lemma_comes_from(plan, all, found, path, path, true, p);
                }
                assert forall|p: Text| #[trigger]
                    found.dirs.contains(p) && p != path implies comes_from(
                    plan,
                    found,
                    path,
                    true,
                    p,
                ) && !(plan.strategy.recurses(p) && is_package(plan, p)) by {
                    if all.dirs.contains(p) {
                        lemma_comes_from(plan, all, found, path, path, true, p);
                    } else {
                        assert(shallow.contains(p));
                        assert(children(entries, path, true).contains(p));
                        assert(comes_from(plan, start, path, true, p));
                        lemma_comes_from(plan, start, found, path, path, true, p);
                    }
                }
            }
        }
    }
}

proof fn lemma_all_grows(plan: GatherPlan, paths: Seq<Text>, depth: nat, i: int, done: Found)
    requires
        0 <= i <= paths.len(),
    ensures
        gathered_all(plan, paths, depth, i, done) matches Ok(all) ==> grows(done, all),
    decreases paths.len() - i,
{
    if i < paths.len() {
        match gathered(plan, paths[i], depth) {
            Err(_) => {},
            Ok(None) => {
                let next = Found { subpackages: done.subpackages.push(paths[i]), ..done };
                assert(next.subpackages =~= done.subpackages + seq![paths[i]]);
                lemma_contains_sum(done.subpackages, seq![paths[i]]);
                assert(grows(done, next));
                lemma_all_grows(plan, paths, depth, i + 1, next);
            },
            Ok(Some(found)) => {
                let next = Found {
                    files: done.files + found.files,
                    dirs: done.dirs + found.dirs,
                    subpackages: done.subpackages + found.subpackages,
                };
                lemma_contains_sum(done.files, found.files);
                lemma_contains_sum(done.dirs, found.dirs);
                lemma_contains_sum(done.subpackages, found.subpackages);
                assert(grows(done, next));
                lemma_all_grows(plan, paths, depth, i + 1, next);
            },
        }
    }
}

proof fn lemma_all_sound(
    plan: GatherPlan,
    paths: Seq<Text>,
    depth: nat,
    i: int,
    done: Found,
    top: Text,
)
    requires
        0 <= i <= paths.len(),
        proper_dirs(plan.known),
        listing_sound(plan, done, top),
        forall|j: int|
            0 <= j < paths.len() ==> comes_from(plan, done, top, true, #[trigger] paths[j])
                && plan.strategy.recurses(paths[j]) && paths[j].len() > 0,
    ensures
        gathered_all(plan, paths, depth, i, done) matches Ok(all) ==> listing_sound(plan, all, top),
    decreases depth, paths.len() - i + 1,
{
    if i < paths.len() {
        lemma_gathered_sound(plan, paths[i], depth);
        lemma_gathered_listed(plan, paths[i], depth);
        match gathered(plan, paths[i], depth) {
            Err(_) => {},
            Ok(None) => {
                let next = Found { subpackages: done.subpackages.push(paths[i]), ..done };
                assert(next.subpackages =~= done.subpackages + seq![paths[i]]);
                lemma_contains_sum(done.subpackages, seq![paths[i]]);
                assert(grows(done, next));
                assert forall|p: Text, is_dir: bool| #[trigger]
                    comes_from(plan, done, top, is_dir, p) implies comes_from(
                    plan,
                    next,
                    top,
                    is_dir,
                    p,
                ) by {
                    lemma_comes_from(plan, done, next, top, top, is_dir, p);
                }
                assert(comes_from(plan, done, top, true, paths[i]));
                lemma_all_sound(plan, paths, depth, i + 1, next, top);
            },
            Ok(Some(found)) => {
                let next = Found {
                    files: done.files + found.files,
                    dirs: done.dirs + found.dirs,
                    subpackages: done.subpackages + found.subpackages,
                };
                lemma_sound_join(plan, done, found, next, top, paths[i]);
                lemma_contains_sum(done.files, found.files);
                lemma_contains_sum(done.dirs, found.dirs);
                lemma_contains_sum(done.subpackages, found.subpackages);
                assert forall|j: int| 0 <= j < paths.len() implies comes_from(
                    plan,
                    next,
                    top,
                    true,
                    #[trigger] paths[j],
                ) && plan.strategy.recurses(paths[j]) && paths[j].len() > 0 by {
                    lemma_comes_from(plan, done, next, top, top, true, paths[j]);
                }
                lemma_all_sound(plan, paths, depth, i + 1, next, top);
            },
        }
    }
}

/// Nothing is in a listing but entries of the package and of the directories that it
/// lists in turn: files among the files, directories with a build file among the packages
/// below, and other directories, or those that are not listed in turn, among the
/// directories.
pub proof fn law_listing_is_sound(plan: GatherPlan)
    requires
        package_found(plan) is Ok,
        proper_dirs(plan.known),
    ensures
        listing_sound(plan, package_found(plan)->Ok_0.0, seq![]),
{
    let root: Text = seq![];
    lemma_gathered_sound(plan, root, plan.known.len() + 1);
    lemma_gathered_listed(plan, root, plan.known.len() + 1);
}

/// All directories are listed in turn, or none, or those that lie on the way to a chosen
/// path or in one.
pub proof fn law_listed_in_turn(child: Text, rest: Text, prefixes: Seq<Text>, i: int)
    requires
        0 <= i < prefixes.len(),
    ensures
        Strategy::Recursive.recurses(child),
        !Strategy::Shallow.recurses(child),
        Strategy::Selective(prefixes).recurses(prefixes[i]),
        Strategy::Selective(prefixes).recurses(prefixes[i] + "/"@ + child),
        prefixes[i] == child + "/"@ + rest ==> Strategy::Selective(prefixes).recurses(child),
{
    reveal_strlit("/");
    let p = prefixes[i];
    let inner = p + "/"@ + child;
    assert(lies_in(p, prefixes[i]));
    assert(inner.take(p.len() as int) =~= p);
    assert(inner[p.len() as int] == '/');
    assert(lies_in(inner, prefixes[i]));
    if p == child + "/"@ + rest {
        assert(p.take(child.len() as int) =~= child);
        assert(lies_in(prefixes[i], child));
    }
}

/// A package's build file is the first candidate, in their order, that the package has;
/// the listing fails where it has none.
pub proof fn law_package_build_file(plan: GatherPlan)
    requires
        lookup(plan.known, seq![]) is Some,
    ensures
        match lookup(plan.known, seq![]) {
            Some(KnownDirModel::Entries(entries)) => {
                &&& package_found(plan) matches Ok((_, name)) ==> exists|c: int|
                    {
                        &&& 0 <= c < plan.candidates.len() && #[trigger] plan.candidates[c] == name
                        &&& exists|i: int|
                            0 <= i < entries.len() && (#[trigger] entries[i]).file_name == name
                        &&& forall|b: int, i: int|
                            0 <= b < c && 0 <= i < entries.len() ==> #[trigger] plan.candidates[b]
                                != (#[trigger] entries[i]).file_name
                    }
                &&& !has_candidate(plan.candidates, entries) ==> package_found(plan) is Err
            },
            _ => package_found(plan) is Err,
        },
{
    let root: Text = seq![];
    reveal_with_fuel(gathered, 2);
    if let Some(KnownDirModel::Entries(entries)) = lookup(plan.known, root) {
        lemma_build_file(plan.candidates, entries, 0);
        lemma_first_candidate(plan.candidates, entries, 0);
    }
}

proof fn lemma_first_candidate(candidates: Seq<Text>, entries: Seq<DirEntryModel>, k: int)
    requires
        0 <= k,
    ensures
        build_file(candidates, entries, k) matches Some(name) ==> exists|c: int|
            {
                &&& k <= c < candidates.len() && #[trigger] candidates[c] == name
                &&& exists|i: int|
                    0 <= i < entries.len() && (#[trigger] entries[i]).file_name == name
                &&& forall|b: int, i: int|
                    k <= b < c && 0 <= i < entries.len() ==> #[trigger] candidates[b] != (
                    #[trigger] entries[i]).file_name
            },
    decreases candidates.len() - k,
{
    if k < candidates.len() {
        if has_entry(entries, candidates[k]) {
            assert(candidates[k] == build_file(candidates, entries, k)->0);
        } else {
            lemma_first_candidate(candidates, entries, k + 1);
            if let Some(name) = build_file(candidates, entries, k + 1) {
                let c = choose|c: int|
                    {
                        &&& k + 1 <= c < candidates.len() && #[trigger] candidates[c] == name
                        &&& exists|i: int|
                            0 <= i < entries.len() && (#[trigger] entries[i]).file_name == name
                        &&& forall|b: int, i: int|
                            k + 1 <= b < c && 0 <= i < entries.len() ==> #[trigger] candidates[b]
                                != (#[trigger] entries[i]).file_name
                    };
                assert(candidates[c] == name);
            }
        }
    }
}

/// A listing holds exactly the files, the directories and the packages below that were
/// found.
pub proof fn law_listing_holds(listing: PackageListing, found: Found, buildfile: Text, path: Text)
    requires
        listing.is_listing(found, buildfile),
    ensures
        listing.file_list().contains(path) <==> found.files.contains(path),
        listing.directory_list().contains(path) <==> found.dirs.contains(path),
        listing.subpackage_list().contains(path) <==> found.subpackages.contains(path),
        listing.build_file_name() == buildfile,
{
    law_sorted_set_of::<String>(found.files);
    law_sorted_set_of::<String>(found.dirs);
    assert(sorted_set_of::<String>(found.files).contains(path) <==> found.files.contains(path));
    assert(sorted_set_of::<String>(found.dirs).contains(path) <==> found.dirs.contains(path));
    listing.subpackage_list().to_multiset_ensures();
    found.subpackages.to_multiset_ensures();
    assert(listing.subpackage_list().contains(path)
        <==> listing.subpackage_list().to_multiset().count(path) > 0);
    assert(found.subpackages.contains(path) <==> found.subpackages.to_multiset().count(path) > 0);
}

} // verus!
