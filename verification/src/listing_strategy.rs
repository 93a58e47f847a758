//! How much of the directories below a package has to be listed.

use vstd::prelude::*;
use vstd::string::*;
use crate::external::ExternalCellOrigin;
use crate::ordered::{Duplicate, law_sorted_set_of, sort_and_dedup, sorted_set_of};
use crate::text::{
    Text, char_is_ascii_alphanumeric, chars_of, find, find_of, is_ascii_alphanumeric,
    lemma_find_from, matches_at, occurs_at, same, text_from, trim, trim_of,
};

verus! {

/// Which directories below a package are listed: all, none, or those on the way
/// to and below some paths.
#[derive(Debug, PartialEq, Eq)]
pub enum PackageListingStrategy {
    Recursive,
    Shallow,
    Selective(Vec<String>),
}

/// The model of [`PackageListingStrategy`].
pub enum Strategy {
    Recursive,
    Shallow,
    Selective(Seq<Text>),
}

impl DeepView for PackageListingStrategy {
    type V = Strategy;

    open spec fn deep_view(&self) -> Strategy {
        match self {
            PackageListingStrategy::Recursive => Strategy::Recursive,
            PackageListingStrategy::Shallow => Strategy::Shallow,
            PackageListingStrategy::Selective(prefixes) => Strategy::Selective(
                prefixes.deep_view(),
            ),
        }
    }
}

impl Duplicate for PackageListingStrategy {
    fn duplicate(&self) -> (r: Self) {
        match self {
            PackageListingStrategy::Recursive => PackageListingStrategy::Recursive,
            PackageListingStrategy::Shallow => PackageListingStrategy::Shallow,
            PackageListingStrategy::Selective(prefixes) => PackageListingStrategy::Selective(
                prefixes.duplicate(),
            ),
        }
    }
}

/// The path is the other one or lies below it.
pub open spec fn lies_in(path: Text, dir: Text) -> bool {
    dir.len() == 0 || path == dir || (path.len() > dir.len() && path.take(dir.len() as int) == dir
        && path[dir.len() as int] == '/')
}

/// Some path of the list holds this one.
pub open spec fn some_holds(dirs: Seq<Text>, path: Text) -> bool {
    exists|i: int| 0 <= i < dirs.len() && lies_in(path, #[trigger] dirs[i])
}

/// Some path of the list lies in this one.
pub open spec fn some_inside(paths: Seq<Text>, dir: Text) -> bool {
    exists|i: int| 0 <= i < paths.len() && lies_in(#[trigger] paths[i], dir)
}

/// Each path of the second list is held by one of the first.
pub open spec fn all_held(dirs: Seq<Text>, paths: Seq<Text>) -> bool {
    forall|i: int| 0 <= i < paths.len() ==> some_holds(dirs, #[trigger] paths[i])
}

/// The strategy for some paths: the path of the package itself asks for all.
pub open spec fn selective_strategy(prefixes: Seq<Text>) -> Strategy {
    if prefixes.contains(seq![]) {
        Strategy::Recursive
    } else if prefixes.len() == 0 {
        Strategy::Shallow
    } else {
        Strategy::Selective(sorted_set_of::<String>(prefixes))
    }
}

impl Strategy {
    /// A list of paths has one at least, and the package's own is not among them.
    pub open spec fn valid(self) -> bool {
        match self {
            Strategy::Selective(prefixes) => prefixes.len() > 0 && !prefixes.contains(seq![]),
            _ => true,
        }
    }

    /// The directory is listed in turn.
    pub open spec fn recurses(self, child: Text) -> bool {
        match self {
            Strategy::Recursive => true,
            Strategy::Shallow => false,
            Strategy::Selective(prefixes) => some_inside(prefixes, child) || some_holds(
                prefixes,
                child,
            ),
        }
    }

    /// What one strategy lists is enough for the other.
    pub open spec fn covered_by(self, available: Strategy) -> bool {
        match (available, self) {
            (Strategy::Recursive, _) => true,
            (_, Strategy::Shallow) => true,
            (Strategy::Shallow, _) => false,
            (Strategy::Selective(_), Strategy::Recursive) => false,
            (Strategy::Selective(available), Strategy::Selective(required)) => all_held(
                available,
                required,
            ),
        }
    }

    /// The strategy that is enough for both.
    pub open spec fn joined(self, other: Strategy) -> Strategy {
        match (self, other) {
            (Strategy::Recursive, _) => Strategy::Recursive,
            (_, Strategy::Recursive) => Strategy::Recursive,
            (Strategy::Shallow, strategy) => strategy,
            (strategy, Strategy::Shallow) => strategy,
            (Strategy::Selective(left), Strategy::Selective(right)) => selective_strategy(
                left + right,
            ),
        }
    }
}

pub fn path_lies_in(path: &str, dir: &str) -> (r: bool)
    ensures
        r == lies_in(path@, dir@),
{
    let p = chars_of(path);
    let d = chars_of(dir);
    if d.len() == 0 {
        return true;
    }
    if p.len() < d.len() {
        return false;
    }
    if !matches_at(&p, &d, 0) {
        assert(lies_in(path@, dir@) ==> occurs_at(path@, dir@, 0)) by {
            if lies_in(path@, dir@) {
                assert(path@.subrange(0, dir@.len() as int) =~= dir@);
            }
        }
        return false;
    }
    assert(path@.take(dir@.len() as int) =~= dir@);
    if p.len() == d.len() {
        assert(path@ =~= dir@);
        return true;
    }
    p[d.len()] == '/'
}

fn holds_path(dirs: &Vec<String>, path: &str) -> (r: bool)
    ensures
        r == some_holds(dirs.deep_view(), path@),
{
    let mut i: usize = 0;
    while i < dirs.len()
        invariant
            0 <= i <= dirs@.len(),
            forall|j: int| 0 <= j < i ==> !lies_in(path@, #[trigger] dirs.deep_view()[j]),
        decreases dirs.len() - i,
    {
        assert(dirs.deep_view()[i as int] == dirs@[i as int]@);
        if path_lies_in(path, dirs[i].as_str()) {
            return true;
        }
        i += 1;
    }
    false
}

fn holds_paths(dirs: &Vec<String>, paths: &Vec<String>) -> (r: bool)
    ensures
        r == all_held(dirs.deep_view(), paths.deep_view()),
{
    let mut i: usize = 0;
    while i < paths.len()
        invariant
            0 <= i <= paths@.len(),
            forall|j: int|
                0 <= j < i ==> some_holds(dirs.deep_view(), #[trigger] paths.deep_view()[j]),
        decreases paths.len() - i,
    {
        assert(paths.deep_view()[i as int] == paths@[i as int]@);
        if !holds_path(dirs, paths[i].as_str()) {
            return false;
        }
        i += 1;
    }
    true
}

fn inside_path(paths: &Vec<String>, dir: &str) -> (r: bool)
    ensures
        r == some_inside(paths.deep_view(), dir@),
{
    let mut i: usize = 0;
    while i < paths.len()
        invariant
            0 <= i <= paths@.len(),
            forall|j: int| 0 <= j < i ==> !lies_in(#[trigger] paths.deep_view()[j], dir@),
        decreases paths.len() - i,
    {
        assert(paths.deep_view()[i as int] == paths@[i as int]@);
        if path_lies_in(paths[i].as_str(), dir) {
            return true;
        }
        i += 1;
    }
    false
}

impl PackageListingStrategy {
    /// The strategy for some paths.
    pub fn selective(prefixes: Vec<String>) -> (r: Self)
        ensures
            r.deep_view() == selective_strategy(prefixes.deep_view()),
            r.deep_view().valid(),
    {
        proof {
            law_selective_valid(prefixes.deep_view());
        }
        let ghost model = prefixes.deep_view();
        let mut i: usize = 0;
        while i < prefixes.len()
            invariant
                model == prefixes.deep_view(),
                0 <= i <= prefixes@.len(),
                forall|j: int| 0 <= j < i ==> (#[trigger] model[j]).len() > 0,
            decreases prefixes.len() - i,
        {
            assert(model[i as int] == prefixes@[i as int]@);
            if prefixes[i].as_str().unicode_len() == 0 {
                assert(model[i as int] =~= seq![]);
                return PackageListingStrategy::Recursive;
            }
            i += 1;
        }
        assert(!model.contains(seq![]));
        assert(model.len() == prefixes@.len());
        if prefixes.len() == 0 {
            PackageListingStrategy::Shallow
        } else {
            PackageListingStrategy::Selective(sort_and_dedup(&prefixes))
        }
    }

    /// Whether the directory is listed in turn.
    pub fn should_recurse_into(&self, child: &str) -> (r: bool)
        ensures
            r == self.deep_view().recurses(child@),
    {
        match self {
            PackageListingStrategy::Recursive => true,
            PackageListingStrategy::Shallow => false,
            PackageListingStrategy::Selective(prefixes) => inside_path(prefixes, child)
                || holds_path(prefixes, child),
        }
    }

    /// Whether what this strategy lists is enough for the other.
    pub fn covers(&self, required: &Self) -> (r: bool)
        ensures
            r == required.deep_view().covered_by(self.deep_view()),
    {
        match (self, required) {
            (PackageListingStrategy::Recursive, _) => true,
            (_, PackageListingStrategy::Shallow) => true,
            (PackageListingStrategy::Shallow, _) => false,
            (PackageListingStrategy::Selective(_), PackageListingStrategy::Recursive) => false,
            (
                PackageListingStrategy::Selective(available),
                PackageListingStrategy::Selective(wanted),
            ) => holds_paths(available, wanted),
        }
    }

    /// The strategy that is enough for both.
    pub fn union(&self, other: &Self) -> (r: Self)
        ensures
            r.deep_view() == self.deep_view().joined(other.deep_view()),
            self.deep_view().valid() && other.deep_view().valid() ==> r.deep_view().valid(),
    {
        match (self, other) {
            (PackageListingStrategy::Recursive, _) => PackageListingStrategy::Recursive,
            (_, PackageListingStrategy::Recursive) => PackageListingStrategy::Recursive,
            (PackageListingStrategy::Shallow, strategy) => strategy.duplicate(),
            (strategy, PackageListingStrategy::Shallow) => strategy.duplicate(),
            (PackageListingStrategy::Selective(left), PackageListingStrategy::Selective(right)) => {
                let mut prefixes = left.duplicate();
                let mut more = right.duplicate();
                let ghost a = prefixes.deep_view();
                let ghost b = more.deep_view();
                prefixes.append(&mut more);
                assert(prefixes.deep_view() =~= a + b);
                PackageListingStrategy::selective(prefixes)
            },
        }
    }
}

/// Lying in a directory is transitive.
pub proof fn law_lies_in_transitive(a: Text, b: Text, c: Text)
    requires
        lies_in(a, b),
        lies_in(b, c),
    ensures
        lies_in(a, c),
{
    if c.len() > 0 && a != b && b != c && b.len() > 0 {
        assert(a.take(b.len() as int) == b);
        assert(a.take(c.len() as int) =~= a.take(b.len() as int).take(c.len() as int));
        assert(a[c.len() as int] == a.take(b.len() as int)[c.len() as int]);
    }
}

/// Of two directories that a path lies in, one lies in the other.
pub proof fn law_lies_in_comparable(path: Text, a: Text, b: Text)
    requires
        lies_in(path, a),
        lies_in(path, b),
    ensures
        lies_in(a, b) || lies_in(b, a),
{
    if a.len() > 0 && b.len() > 0 {
        if a.len() <= b.len() {
            lemma_shorter_holds(path, a, b);
        } else {
            lemma_shorter_holds(path, b, a);
        }
    }
}

proof fn lemma_shorter_holds(path: Text, a: Text, b: Text)
    requires
        0 < a.len() <= b.len(),
        lies_in(path, a),
        lies_in(path, b),
    ensures
        lies_in(b, a),
{
    assert(path.take(a.len() as int) =~= a);
    assert(path.take(b.len() as int) =~= b);
    assert(b.take(a.len() as int) =~= path.take(a.len() as int));
    if a.len() < b.len() {
        assert(b[a.len() as int] == path[a.len() as int]);
    } else {
        assert(b =~= a);
    }
}

/// A strategy covers itself.
pub proof fn law_covers_itself(s: Strategy)
    ensures
        s.covered_by(s),
{
    match s {
        Strategy::Selective(prefixes) => {
            assert forall|i: int| 0 <= i < prefixes.len() implies some_holds(
                prefixes,
                #[trigger] prefixes[i],
            ) by {
                assert(lies_in(prefixes[i], prefixes[i]));
            }
        },
        _ => {},
    }
}

/// What covers a strategy covers what that covers.
pub proof fn law_covers_transitive(a: Strategy, b: Strategy, c: Strategy)
    requires
        a.covered_by(b),
        b.covered_by(c),
    ensures
        a.covered_by(c),
{
    match (a, b, c) {
        (Strategy::Selective(x), Strategy::Selective(y), Strategy::Selective(z)) => {
            assert forall|i: int| 0 <= i < x.len() implies some_holds(z, #[trigger] x[i]) by {
                assert(some_holds(y, x[i]));
                let j = choose|j: int| 0 <= j < y.len() && lies_in(x[i], #[trigger] y[j]);
                assert(some_holds(z, y[j]));
                let k = choose|k: int| 0 <= k < z.len() && lies_in(y[j], #[trigger] z[k]);
                law_lies_in_transitive(x[i], y[j], z[k]);
            }
        },
        _ => {},
    }
}

/// A strategy lists what any strategy that it covers lists.
pub proof fn law_covers_recurses(required: Strategy, available: Strategy, child: Text)
    requires
        required.covered_by(available),
        required.recurses(child),
    ensures
        available.recurses(child),
{
    match (required, available) {
        (Strategy::Selective(x), Strategy::Selective(y)) => {
            if some_inside(x, child) {
                let i = choose|i: int| 0 <= i < x.len() && lies_in(#[trigger] x[i], child);
                assert(some_holds(y, x[i]));
                let j = choose|j: int| 0 <= j < y.len() && lies_in(x[i], #[trigger] y[j]);
                law_lies_in_comparable(x[i], y[j], child);
            } else {
                let i = choose|i: int| 0 <= i < x.len() && lies_in(child, #[trigger] x[i]);
                assert(some_holds(y, x[i]));
                let j = choose|j: int| 0 <= j < y.len() && lies_in(x[i], #[trigger] y[j]);
                law_lies_in_transitive(child, x[i], y[j]);
            }
        },
        _ => {},
    }
}

/// The strategy for some paths is a valid one.
pub proof fn law_selective_valid(prefixes: Seq<Text>)
    ensures
        selective_strategy(prefixes).valid(),
{
    if !prefixes.contains(seq![]) && prefixes.len() > 0 {
        let sorted = sorted_set_of::<String>(prefixes);
        law_sorted_set_of::<String>(prefixes);
        assert(prefixes.contains(prefixes[0]));
        assert(sorted.contains(prefixes[0]));
        assert(prefixes.contains(seq![]) == sorted.contains(seq![]));
    }
}

/// The union of two strategies covers both.
pub proof fn law_union_covers(a: Strategy, b: Strategy)
    requires
        a.valid(),
        b.valid(),
    ensures
        a.covered_by(a.joined(b)),
        b.covered_by(a.joined(b)),
{
    law_covers_itself(a);
    law_covers_itself(b);
    match (a, b) {
        (Strategy::Selective(x), Strategy::Selective(y)) => {
            let all = x + y;
            let sorted = sorted_set_of::<String>(all);
            law_sorted_set_of::<String>(all);
            assert forall|i: int| 0 <= i < x.len() implies some_holds(sorted, #[trigger] x[i]) by {
                assert(all[i] == x[i]);
                assert(all.contains(x[i]));
                assert(sorted.contains(x[i]));
                let j = choose|j: int| 0 <= j < sorted.len() && sorted[j] == x[i];
                assert(lies_in(x[i], sorted[j]));
            }
            assert forall|i: int| 0 <= i < y.len() implies some_holds(sorted, #[trigger] y[i]) by {
                assert(all[x.len() + i] == y[i]);
                assert(all.contains(y[i]));
                assert(sorted.contains(y[i]));
                let j = choose|j: int| 0 <= j < sorted.len() && sorted[j] == y[i];
                assert(lies_in(y[i], sorted[j]));
            }
        },
        _ => {},
    }
}

/// A character that names are made of.
pub open spec fn identifier_char(c: char) -> bool {
    c == '_' || is_ascii_alphanumeric(c)
}

fn is_starlark_identifier_char(c: char) -> (r: bool)
    ensures
        r == identifier_char(c),
{
    c == '_' || char_is_ascii_alphanumeric(c)
}

/// The text at `i` of that length has no part of a name on either side.
pub open spec fn stands_alone(s: Text, i: int, len: int) -> bool {
    &&& i > 0 ==> !identifier_char(s[i - 1])
    &&& i + len < s.len() ==> !identifier_char(s[i + len])
}

/// The name may stand in the text: one of its occurrences, looked for one after
/// another, has no part of a name on either side in what is left.
pub open spec fn may_contain(s: Text, name: Text) -> bool
    decreases s.len(),
    via may_contain_decreases
{
    if name.len() == 0 {
        false
    } else {
        match find(s, name) {
            None => false,
            Some(i) => stands_alone(s, i, name.len() as int) || may_contain(
                s.skip(i + name.len()),
                name,
            ),
        }
    }
}

#[via_fn]
proof fn may_contain_decreases(s: Text, name: Text) {
    lemma_find_from(s, name, 0);
}

/// A name that stands in the text by itself is found.
pub proof fn law_may_contain(s: Text, name: Text, i: int)
    requires
        name.len() > 0,
        forall|j: int| 0 <= j < name.len() ==> identifier_char(#[trigger] name[j]),
        0 <= i,
        occurs_at(s, name, i),
        stands_alone(s, i, name.len() as int),
    ensures
        may_contain(s, name),
    decreases s.len(),
{
    lemma_find_from(s, name, 0);
    let n = name.len() as int;
    let found = find(s, name);
    assert(found is Some);
    let j = found->0;
    if j < i && !stands_alone(s, j, n) {
        if i < j + n {
            assert(s.subrange(j, j + n)[i - 1 - j] == name[i - 1 - j]);
            assert(identifier_char(s[i - 1]));
        }
        let rest = s.skip(j + n);
        let k = i - j - n;
        assert(rest.subrange(k, k + n) =~= s.subrange(i, i + n));
        assert(stands_alone(rest, k, n));
        law_may_contain(rest, name, k);
    }
}

/// Whether the name may stand in the text.
pub fn may_contain_starlark_identifier(contents: &str, needle: &str) -> (r: bool)
    requires
        needle@.len() > 0,
    ensures
        r == may_contain(contents@, needle@),
{
    let mut rest = contents;
    let n: usize = needle.unicode_len();
    loop
        invariant
            n == needle@.len(),
            n > 0,
            may_contain(contents@, needle@) == may_contain(rest@, needle@),
        decreases rest@.len(),
    {
        proof {
            lemma_find_from(rest@, needle@, 0);
        }
        match find_of(rest, needle) {
            None => {
                return false;
            },
            Some(i) => {
                let chars = chars_of(rest);
                let before = i > 0 && is_starlark_identifier_char(chars[i - 1]);
                let after = i + n < chars.len() && is_starlark_identifier_char(chars[i + n]);
                if !before && !after {
                    return true;
                }
                rest = text_from(rest, i + n);
            },
        }
    }
}

/// Whether a build file has to see the files below its directory.
pub fn build_file_requires_recursive_listing(contents: &str) -> (r: bool)
    ensures
        r == (may_contain(contents@, "glob"@) || may_contain(contents@, "subpackages"@)
            || may_contain(contents@, "sub_packages"@)),
{
    proof {
        reveal_strlit("glob");
        reveal_strlit("subpackages");
        reveal_strlit("sub_packages");
    }
    may_contain_starlark_identifier(contents, "glob") || may_contain_starlark_identifier(
        contents,
        "subpackages",
    ) || may_contain_starlark_identifier(contents, "sub_packages")
}

/// A setting switches something on.
pub open spec fn switched_on(setting: Option<Text>) -> bool {
    match setting {
        Some(value) => trim(value) == "1"@ || trim(value) == "true"@ || trim(value) == "True"@
            || trim(value) == "TRUE"@,
        None => false,
    }
}

/// Whether a setting switches something on.
pub fn bazel_compat_enabled(value: Option<&str>) -> (r: bool)
    ensures
        r == switched_on(value.deep_view()),
{
    match value {
        Some(value) => {
            let value = trim_of(value);
            same(value, "1") || same(value, "true") || same(value, "True") || same(value, "TRUE")
        },
        None => false,
    }
}

/// Whether the packages of a cell are listed as Bazel lists them: where the cell comes
/// from a module or was made for one, or its setting is on.
pub fn bazel_compat_package_listing_enabled(
    external: Option<&ExternalCellOrigin>,
    setting: Option<&str>,
) -> (r: bool)
    ensures
        r == ((external matches Some(origin) && (origin is Bzlmod || origin is BzlmodGenerated))
            || switched_on(setting.deep_view())),
{
    match external {
        Some(ExternalCellOrigin::Bzlmod(_)) | Some(ExternalCellOrigin::BzlmodGenerated(_)) => true,
        _ => bazel_compat_enabled(setting),
    }
}

/// The strategy for a package: everything is listed unless the cell is a Bazel
/// one, the build file could be read, and does not have to see the files below
/// its directory.
pub fn package_listing_strategy(bazel_listing: bool, buildfile_contents: Option<&str>) -> (r:
    PackageListingStrategy)
    ensures
        r.deep_view() == (match buildfile_contents.deep_view() {
            Some(contents) => if bazel_listing && !(may_contain(contents, "glob"@) || may_contain(
                contents,
                "subpackages"@,
            ) || may_contain(contents, "sub_packages"@)) {
                Strategy::Shallow
            } else {
                Strategy::Recursive
            },
            None => Strategy::Recursive,
        }),
{
    match buildfile_contents {
        Some(contents) => if bazel_listing && !build_file_requires_recursive_listing(contents) {
            PackageListingStrategy::Shallow
        } else {
            PackageListingStrategy::Recursive
        },
        None => PackageListingStrategy::Recursive,
    }
}

/// Only the packages of a Bazel cell are listed by themselves, and only those whose build
/// file was read and names no function that has to see the files below.
pub proof fn law_shallow_listing(
    bazel_listing: bool,
    contents: Option<&str>,
    strategy: PackageListingStrategy,
)
    requires
        call_ensures(package_listing_strategy, (bazel_listing, contents), strategy),
    ensures
        strategy.deep_view() is Shallow ==> bazel_listing && contents is Some && !may_contain(
            contents->0@,
            "glob"@,
        ) && !may_contain(contents->0@, "subpackages"@),
        bazel_listing && contents is Some && !may_contain(contents->0@, "glob"@) && !may_contain(
            contents->0@,
            "subpackages"@,
        ) && !may_contain(contents->0@, "sub_packages"@) ==> strategy.deep_view() is Shallow,
        !(strategy.deep_view() is Selective),
{
}

/// The packages of a cell that comes from a module are listed as Bazel lists them, whatever
/// its setting is, and those of any other cell where the setting is on.
pub proof fn law_bazel_listing(
    external: Option<&ExternalCellOrigin>,
    setting: Option<&str>,
    enabled: bool,
)
    requires
        call_ensures(bazel_compat_package_listing_enabled, (external, setting), enabled),
    ensures
        external matches Some(origin) ==> (origin is Bzlmod || origin is BzlmodGenerated ==> enabled),
        external is None || external->0 is Bundled || external->0 is Git ==> {
            &&& setting is None ==> !enabled
            &&& setting is Some && (setting->0@ == "1"@ || setting->0@ == "true"@ || setting->0@
                == "True"@ || setting->0@ == "TRUE"@) ==> enabled
            &&& setting is Some && setting->0@ == "false"@ ==> !enabled
        },
{
    reveal_strlit("1");
    reveal_strlit("true");
    reveal_strlit("True");
    reveal_strlit("TRUE");
    reveal_strlit("false");
    assert(trim("1"@) == "1"@);
    assert(trim("true"@) == "true"@);
    assert(trim("True"@) == "True"@);
    assert(trim("TRUE"@) == "TRUE"@);
    assert(trim("false"@) == "false"@);
    assert("false"@.len() == 5);
}

} // verus!
