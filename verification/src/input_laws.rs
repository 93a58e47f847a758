//! What holds of every reading of module files.

use vstd::prelude::*;
use vstd::string::*;
use crate::blocks::{assignments, call_texts, calls, constants_of};
use crate::discovery::patch_content;
use crate::module::{
    BzlmodArchiveOverrideModel, BzlmodLocalPathOverrideModel, BzlmodRootPatchModel,
    BzlmodSingleVersionOverrideModel,
};
use crate::module_inputs::{
    ReadStopModel, RootReading, cell_file, file_read, first_reading, known_file, lemma_seen,
    patches_read, root_input, root_names, root_reading, with_archives, with_local_paths,
    with_versions,
};
use crate::module_overrides::{archive_override, local_path_override, single_version_override};
use crate::ordered::{OrderedKey, lookup, missing, put, set_put};
use crate::paths::{KnownFiles, below};
use crate::text::{Text, join, lines};

verus! {

/// Each archive can be fetched from somewhere.
pub open spec fn archives_have_urls(archives: Seq<(Text, BzlmodArchiveOverrideModel)>) -> bool {
    forall|i: int| 0 <= i < archives.len() ==> (#[trigger] archives[i]).1.urls.len() > 0
}

/// A file that is asked for is not known.
pub open spec fn asks_unknown(files: KnownFiles, stop: ReadStopModel) -> bool {
    stop matches ReadStopModel::NeedsFile(path) ==> lookup(files, path) is None
}

proof fn lemma_put_archive(
    archives: Seq<(Text, BzlmodArchiveOverrideModel)>,
    name: Text,
    o: BzlmodArchiveOverrideModel,
)
    requires
        archives_have_urls(archives),
        o.urls.len() > 0,
    ensures
        archives_have_urls(put::<String, BzlmodArchiveOverrideModel>(archives, name, o)),
    decreases archives.len(),
{
    let out = put::<String, BzlmodArchiveOverrideModel>(archives, name, o);
    if archives.len() > 0 {
        let rest = archives.skip(1);
        assert(archives_have_urls(rest)) by {
            assert(forall|i: int| 0 <= i < rest.len() ==> #[trigger] rest[i] == archives[i + 1]);
        }
        lemma_put_archive(rest, name, o);
        let tail = put::<String, BzlmodArchiveOverrideModel>(rest, name, o);
        assert forall|i: int| 0 <= i < out.len() implies (#[trigger] out[i]).1.urls.len() > 0 by {
            if archives[0].0 == name {
                assert(i > 0 ==> out[i] == archives[i]);
            } else if String::key_lt(name, archives[0].0) {
                assert(i > 0 ==> out[i] == archives[i - 1]);
            } else {
                assert(i > 0 ==> out[i] == tail[i - 1]);
                assert(out[0] == archives[0]);
            }
        }
    }
}

proof fn lemma_patches_read(
    files: KnownFiles,
    cell: Text,
    patches: Seq<BzlmodRootPatchModel>,
    i: int,
)
    ensures
        patches_read(files, cell, patches, i) matches Err(stop) ==> asks_unknown(files, stop),
    decreases patches.len() - i,
{
    if 0 <= i < patches.len() {
        if let Ok(Some(lines)) = cell_file(files, cell, patches[i].path) {
            lemma_patches_read(
                files,
                cell,
                patches.update(
                    i,
                    BzlmodRootPatchModel { path: patches[i].path, content: patch_content(lines) },
                ),
                i + 1,
            );
        }
    }
}

proof fn lemma_archives(
    files: KnownFiles,
    cell: Text,
    file: Text,
    calls: Seq<Text>,
    constants: Seq<(Text, Text)>,
    i: int,
    done: Seq<(Text, BzlmodArchiveOverrideModel)>,
)
    requires
        archives_have_urls(done),
    ensures
        match with_archives(files, cell, file, calls, constants, i, done) {
            Ok(archives) => archives_have_urls(archives),
            Err(stop) => asks_unknown(files, stop),
        },
    decreases calls.len() - i,
{
    if 0 <= i < calls.len() {
        if let Ok(o) = archive_override(file, calls[i], constants) {
            lemma_patches_read(files, cell, o.patches, 0);
            if let Ok(patches) = patches_read(files, cell, o.patches, 0) {
                let read = BzlmodArchiveOverrideModel { patches, ..o };
                lemma_put_archive(done, o.module_name, read);
                lemma_archives(
                    files,
                    cell,
                    file,
                    calls,
                    constants,
                    i + 1,
                    put::<String, BzlmodArchiveOverrideModel>(done, o.module_name, read),
                );
            }
        }
    }
}

proof fn lemma_versions(
    files: KnownFiles,
    cell: Text,
    file: Text,
    calls: Seq<Text>,
    constants: Seq<(Text, Text)>,
    i: int,
    done: Seq<(Text, BzlmodSingleVersionOverrideModel)>,
)
    ensures
        with_versions(files, cell, file, calls, constants, i, done) matches Err(stop)
            ==> asks_unknown(files, stop),
    decreases calls.len() - i,
{
    if 0 <= i < calls.len() {
        match single_version_override(file, calls[i], constants) {
            Err(_) => {},
            Ok(None) => {
                lemma_versions(files, cell, file, calls, constants, i + 1, done);
            },
            Ok(Some((module_name, o))) => {
                lemma_patches_read(files, cell, o.patches, 0);
                if let Ok(patches) = patches_read(files, cell, o.patches, 0) {
                    lemma_versions(
                        files,
                        cell,
                        file,
                        calls,
                        constants,
                        i + 1,
                        put::<String, BzlmodSingleVersionOverrideModel>(
                            done,
                            module_name,
                            BzlmodSingleVersionOverrideModel { patches, ..o },
                        ),
                    );
                }
            },
        }
    }
}

proof fn lemma_local_paths(
    files: KnownFiles,
    cell: Text,
    calls: Seq<Text>,
    i: int,
    done: Seq<(Text, BzlmodLocalPathOverrideModel)>,
)
    ensures
        with_local_paths(files, cell, calls, i, done) matches Err(stop) ==> asks_unknown(
            files,
            stop,
        ),
    decreases calls.len() - i,
{
    if 0 <= i < calls.len() {
        if let Ok(o) = local_path_override(cell, calls[i]) {
            if let Ok(Some(lines)) = known_file(files, below(o.path, "MODULE.bazel"@)) {
                lemma_local_paths(
                    files,
                    cell,
                    calls,
                    i + 1,
                    put::<String, BzlmodLocalPathOverrideModel>(
                        done,
                        o.module_name,
                        BzlmodLocalPathOverrideModel { module_text: join(lines, "\n"@), ..o },
                    ),
                );
            }
        }
    }
}

proof fn lemma_file_read(
    files: KnownFiles,
    cell: Text,
    file: Text,
    lines: Seq<Text>,
    s: RootReading,
)
    requires
        archives_have_urls(s.archives),
    ensures
        match file_read(files, cell, file, lines, s) {
            Ok(next) => archives_have_urls(next.archives) && next.seen == s.seen,
            Err(stop) => asks_unknown(files, stop),
        },
{
    let constants = constants_of(assignments(lines, 0));
    lemma_archives(
        files,
        cell,
        file,
        call_texts(calls(lines, "archive_override("@, 0)),
        constants,
        0,
        s.archives,
    );
    lemma_versions(
        files,
        cell,
        file,
        call_texts(calls(lines, "single_version_override("@, 0)),
        constants,
        0,
        s.versions,
    );
    lemma_local_paths(
        files,
        cell,
        call_texts(calls(lines, "local_path_override("@, 0)),
        0,
        s.local_paths,
    );
}

proof fn lemma_root_reading(files: KnownFiles, cell: Text, s: RootReading)
    requires
        archives_have_urls(s.archives),
    ensures
        match root_reading(files, cell, s) {
            Ok(end) => archives_have_urls(end.archives),
            Err(stop) => asks_unknown(files, stop),
        },
    decreases missing(root_names(files, cell), s.seen), s.stack.len(),
{
    if s.stack.len() > 0 {
        let file = s.stack.last();
        let rest = RootReading { stack: s.stack.drop_last(), ..s };
        if s.seen.contains(file) {
            lemma_root_reading(files, cell, rest);
        } else {
            let seen = RootReading { seen: set_put::<String>(s.seen, file), ..rest };
            match cell_file(files, cell, file) {
                Err(_) => {},
                Ok(None) => {
                    lemma_seen(files, cell, s.seen, file);
                    lemma_root_reading(files, cell, seen);
                },
                Ok(Some(lines)) => {
                    lemma_seen(files, cell, s.seen, file);
                    lemma_file_read(files, cell, file, lines, seen);
                    if let Ok(next) = file_read(files, cell, file, lines, seen) {
                        lemma_root_reading(files, cell, next);
                    }
                },
            }
        }
    }
}

/// Every archive that module files declare can be fetched from somewhere.
pub proof fn law_archives_have_urls(files: KnownFiles, cell: Text, module_tools: Text)
    ensures
        root_input(files, cell, module_tools) matches Ok(input) ==> archives_have_urls(
            input.archive_overrides,
        ),
{
    lemma_root_reading(files, cell, first_reading());
}

/// A file that a reading asks for is not known yet: once each file that is asked
/// for has been looked up, the reading comes to its end.
pub proof fn law_reading_asks_unknown(files: KnownFiles, cell: Text, module_tools: Text)
    ensures
        root_input(files, cell, module_tools) matches Err(stop) ==> asks_unknown(files, stop),
{
    lemma_root_reading(files, cell, first_reading());
}

} // verus!
