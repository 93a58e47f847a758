//! The patches that a module file has to see, and the archives that one comes
//! from.

use vstd::prelude::*;
use vstd::string::*;
use crate::discovery::{
    chunk_paths, ended_lines, patch_chunk_paths, patch_chunks, patch_content, split_patch_chunks,
};
use crate::module::{BzlmodRootPatch, BzlmodRootPatchModel};
use crate::ordered::{KeyMap, lookup};
use crate::text::{Text, lines, lines_of, same};

verus! {

/// What is left of the paths that patches name without their first directories,
/// where anything is left.
pub type StrippedPaths = Seq<(Text, Option<Text>)>;

/// The part of a patch is for the module file.
pub open spec fn touches_module_file(chunk: Seq<Text>, stripped: StrippedPaths) -> bool {
    exists|i: int|
        0 <= i < chunk_paths(chunk).len() && lookup(stripped, #[trigger] chunk_paths(chunk)[i])
            == Some(Some("MODULE.bazel"@))
}

/// The lines of the parts of a patch that are for the module file.
pub open spec fn module_file_lines(chunks: Seq<Seq<Text>>, stripped: StrippedPaths) -> Text
    decreases chunks.len(),
{
    if chunks.len() == 0 {
        seq![]
    } else {
        module_file_lines(chunks.drop_last(), stripped) + (if touches_module_file(
            chunks.last(),
            stripped,
        ) {
            ended_lines(chunks.last())
        } else {
            seq![]
        })
    }
}

/// What a patch does to the module file, as a patch; none where it does nothing.
pub open spec fn module_file_patch(content: Text, stripped: StrippedPaths) -> Option<Text> {
    let text = module_file_lines(patch_chunks(lines(content), 0, seq![], seq![]), stripped);
    if text.len() == 0 {
        None
    } else {
        Some(text)
    }
}

/// The first patch from `from` on that does something to the module file, with
/// what it does.
pub open spec fn next_patch(
    patches: Seq<BzlmodRootPatchModel>,
    from: int,
    stripped: StrippedPaths,
) -> Option<(int, Text)>
    decreases patches.len() - from,
{
    if from < 0 || from >= patches.len() {
        None
    } else {
        match module_file_patch(patches[from].content, stripped) {
            Some(text) => Some((from, text)),
            None => next_patch(patches, from + 1, stripped),
        }
    }
}

/// The paths that a patch names.
pub fn bzlmod_patch_paths(patch_content: &str) -> (r: Vec<String>)
    ensures
        r.deep_view() == chunk_paths(lines(patch_content@)),
{
    patch_chunk_paths(&lines_of(patch_content))
}

/// Whether the part of a patch is for the module file.
pub fn bzlmod_patch_chunk_touches_module_file(
    chunk: &Vec<String>,
    stripped: &KeyMap<String, Option<String>>,
) -> (r: bool)
    ensures
        r == touches_module_file(chunk.deep_view(), stripped.deep_view()),
{
    let paths = patch_chunk_paths(chunk);
    let ghost model = paths.deep_view();
    let mut i: usize = 0;
    while i < paths.len()
        invariant
            model == paths.deep_view(),
            model == chunk_paths(chunk.deep_view()),
            0 <= i <= paths@.len(),
            forall|j: int|
                0 <= j < i ==> lookup(stripped.deep_view(), #[trigger] model[j]) != Some(
                    Some("MODULE.bazel"@),
                ),
        decreases paths.len() - i,
    {
        assert(model[i as int] == paths@[i as int]@);
        if let Some(Some(path)) = stripped.get(&paths[i]) {
            if same(path.as_str(), "MODULE.bazel") {
                return true;
            }
        }
        i += 1;
    }
    false
}

/// What a patch does to the module file, as a patch.
pub fn filter_bzlmod_module_file_patch(
    patch_content: &str,
    stripped: &KeyMap<String, Option<String>>,
) -> (r: Option<String>)
    ensures
        r.deep_view() == module_file_patch(patch_content@, stripped.deep_view()),
{
    let chunks = split_patch_chunks(patch_content);
    let ghost model = chunks.deep_view();
    let mut out = String::new();
    let mut i: usize = 0;
    assert(out@ =~= module_file_lines(model.take(0), stripped.deep_view()));
    while i < chunks.len()
        invariant
            model == chunks.deep_view(),
            0 <= i <= chunks@.len(),
            out@ =~= module_file_lines(model.take(i as int), stripped.deep_view()),
        decreases chunks.len() - i,
    {
        proof {
            let t = model.take(i + 1);
            assert(t.drop_last() =~= model.take(i as int));
            assert(t.last() == chunks@[i as int].deep_view());
        }
        if bzlmod_patch_chunk_touches_module_file(&chunks[i], stripped) {
            push_ended_lines(&mut out, &chunks[i]);
        }
        i += 1;
    }
    assert(model.take(i as int) =~= model);
    if out.as_str().is_empty() {
        None
    } else {
        Some(out)
    }
}

fn push_ended_lines(out: &mut String, chunk: &Vec<String>)
    ensures
        final(out)@ == old(out)@ + ended_lines(chunk.deep_view()),
{
    let ghost before = out@;
    let ghost model = chunk.deep_view();
    let mut i: usize = 0;
    assert(out@ =~= before + ended_lines(model.take(0)));
    while i < chunk.len()
        invariant
            model == chunk.deep_view(),
            0 <= i <= chunk@.len(),
            out@ =~= before + ended_lines(model.take(i as int)),
        decreases chunk.len() - i,
    {
        proof {
            let t = model.take(i + 1);
            assert(t.drop_last() =~= model.take(i as int));
            assert(t.last() == chunk@[i as int]@);
        }
        out.append(chunk[i].as_str());
        out.push('\n');
        i += 1;
    }
    assert(model.take(i as int) =~= model);
}

/// The first patch from `from` on that does something to the module file, with
/// what it does.
pub fn next_bzlmod_module_file_patch(
    patches: &Vec<BzlmodRootPatch>,
    from: usize,
    stripped: &KeyMap<String, Option<String>>,
) -> (r: Option<(usize, String)>)
    ensures
        match next_patch(patches.deep_view(), from as int, stripped.deep_view()) {
            Some((i, text)) => r matches Some((at, patch)) && at == i && patch@ == text,
            None => r is None,
        },
{
    let ghost model = patches.deep_view();
    let mut i: usize = from;
    while i < patches.len()
        invariant
            model == patches.deep_view(),
            from <= i,
            next_patch(model, from as int, stripped.deep_view()) == next_patch(
                model,
                i as int,
                stripped.deep_view(),
            ),
        decreases patches.len() - i,
    {
        assert(model[i as int] == patches@[i as int].deep_view());
        if let Some(text) = filter_bzlmod_module_file_patch(patches[i].content.as_str(), stripped) {
            return Some((i, text));
        }
        i += 1;
    }
    None
}

/// How the download of an archive goes on.
pub enum ArchiveDownload<'a> {
    Fetch(&'a str),
    GiveUp(String),
}

/// How the download of an archive goes on after the addresses that failed, each
/// with its message: with the next address, or with the last message.
pub fn next_archive_download<'a>(urls: &'a Vec<String>, failures: &Vec<String>) -> (r:
    ArchiveDownload<'a>)
    ensures
        if failures@.len() < urls@.len() {
            r matches ArchiveDownload::Fetch(url) && url@ == urls@[failures@.len() as int]@
        } else if failures@.len() > 0 {
            r matches ArchiveDownload::GiveUp(cause) && cause@ == failures@.last()@
        } else {
            r matches ArchiveDownload::GiveUp(cause) && cause@ == "no URL provided"@
        },
{
    if failures.len() < urls.len() {
        ArchiveDownload::Fetch(urls[failures.len()].as_str())
    } else if failures.len() > 0 {
        ArchiveDownload::GiveUp(failures[failures.len() - 1].clone())
    } else {
        ArchiveDownload::GiveUp("no URL provided".to_owned())
    }
}

} // verus!
