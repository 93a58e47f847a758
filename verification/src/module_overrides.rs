//! Overrides that the root module declares for its dependencies.

use vstd::prelude::*;
use vstd::string::*;
use crate::calls::{
    bzl_call_named_arg_value, bzl_integer_expression_value, bzl_string_arg, include_path,
    integer_value, module_include_to_path, named_arg, string_arg,
};
use crate::expr::{
    Constants, bzl_string_expression_arg, bzl_string_sequence_expression_raw_values,
    sequence_expression, string_expression_arg,
};
use crate::module::{
    BzlmodArchiveOverride, BzlmodArchiveOverrideModel, BzlmodLocalPathOverride,
    BzlmodLocalPathOverrideModel, BzlmodRootPatch, BzlmodRootPatchModel,
    BzlmodSingleVersionOverride, BzlmodSingleVersionOverrideModel, InputError,
};
use crate::ordered::result_view;
use crate::scan::call_args;
use crate::paths::{join_normalized, join_path};
use crate::text::{
    Text, concat, concat3, int_text, same, signed_decimal, strip_prefix, trim, trim_of,
};

verus! {

/// The strings of the list that a named argument gives; none where it gives no
/// such list.
pub open spec fn strings_arg(call: Text, arg: Text, cs: Constants) -> Seq<Text> {
    match named_arg(call_args(call), arg, 0) {
        Some(value) => match sequence_expression(value, cs) {
            Some(values) => values,
            None => seq![],
        },
        None => seq![],
    }
}

fn strings_arg_of(call: &str, arg: &str, constants: &Vec<(String, String)>) -> (r: Vec<String>)
    ensures
        r.deep_view() == strings_arg(call@, arg@, constants.deep_view()),
{
    match bzl_call_named_arg_value(call, arg) {
        Some(value) => match bzl_string_sequence_expression_raw_values(value.as_str(), constants) {
            Some(values) => {
                return values;
            },
            None => {},
        },
        None => {},
    }
    let none: Vec<String> = Vec::new();
    assert(none.deep_view() =~= seq![]);
    none
}

/// The patch files that the labels from `i` on name.
pub open spec fn patch_files(
    labels: Seq<Text>,
    current: Text,
    i: int,
    done: Seq<BzlmodRootPatchModel>,
) -> Result<Seq<BzlmodRootPatchModel>, Text>
    decreases labels.len() - i,
{
    if i < 0 || i >= labels.len() {
        Ok(done)
    } else {
        match include_path(current, labels[i]) {
            Some(path) => patch_files(
                labels,
                current,
                i + 1,
                done.push(BzlmodRootPatchModel { path, content: seq![] }),
            ),
            None => Err(
                "bzlmod override patch must be a root-module label, got `"@ + labels[i] + "`"@,
            ),
        }
    }
}

/// The patch files that an override names.
pub fn bzlmod_override_patch_paths_from_call(
    current_module_file: &str,
    call: &str,
    constants: &Vec<(String, String)>,
) -> (r: Result<Vec<BzlmodRootPatch>, InputError>)
    ensures
        result_view(r) == patch_files(
            strings_arg(call@, "patches"@, constants.deep_view()),
            current_module_file@,
            0,
            seq![],
        ),
{
    let labels = strings_arg_of(call, "patches", constants);
    let ghost model = labels.deep_view();
    let mut out: Vec<BzlmodRootPatch> = Vec::new();
    let mut i: usize = 0;
    assert(out.deep_view() =~= seq![]);
    while i < labels.len()
        invariant
            model == strings_arg(call@, "patches"@, constants.deep_view()),
            model == labels.deep_view(),
            0 <= i <= labels@.len(),
            patch_files(model, current_module_file@, 0, seq![]) == patch_files(
                model,
                current_module_file@,
                i as int,
                out.deep_view(),
            ),
        decreases labels.len() - i,
    {
        assert(model[i as int] == labels@[i as int]@);
        match module_include_to_path(current_module_file, labels[i].as_str()) {
            Some(path) => {
                let ghost before = out.deep_view();
                let content = String::new();
                assert(content@ =~= seq![]);
                let patch = BzlmodRootPatch { path, content };
                let ghost g = patch.deep_view();
                out.push(patch);
                assert(out.deep_view() =~= before.push(g));
            },
            None => {
                return Err(
                    InputError {
                        message: concat3(
                            "bzlmod override patch must be a root-module label, got `",
                            labels[i].as_str(),
                            "`",
                        ),
                    },
                );
            },
        }
        i += 1;
    }
    Ok(out)
}

/// How many directories an override strips from the paths in its patches.
pub open spec fn patch_strip_arg(function: Text, module_name: Text, call: Text) -> Result<
    Option<u32>,
    Text,
> {
    match named_arg(call_args(call), "patch_strip"@, 0) {
        Some(value) => match integer_value(trim(value)) {
            Some(n) => if n < 0 {
                Err(
                    function + " for module `"@ + module_name + "` has negative patch_strip `"@
                        + int_text(n) + "`"@,
                )
            } else {
                Ok(Some(n as u32))
            },
            None => Ok(None),
        },
        None => Ok(None),
    }
}

/// How many directories an override strips from the paths in its patches.
pub fn bzlmod_override_patch_strip_from_call(function: &str, module_name: &str, call: &str) -> (r:
    Result<Option<u32>, InputError>)
    ensures
        result_view(r) == patch_strip_arg(function@, module_name@, call@),
{
    match bzl_call_named_arg_value(call, "patch_strip") {
        Some(value) => match bzl_integer_expression_value(value.as_str()) {
            Some(n) => {
                if n < 0 {
                    let mut message = concat3(function, " for module `", module_name);
                    message.append("` has negative patch_strip `");
                    message.append(signed_decimal(n as i64).as_str());
                    message.append("`");
                    Err(InputError { message })
                } else {
                    Ok(Some(n as u32))
                }
            },
            None => Ok(None),
        },
        None => Ok(None),
    }
}

/// What an `archive_override` call declares.
pub open spec fn archive_override(current: Text, call: Text, cs: Constants) -> Result<
    BzlmodArchiveOverrideModel,
    Text,
> {
    match string_expression_arg(call, "module_name"@, cs) {
        None => Err("archive_override must have a literal string `module_name`: "@ + call),
        Some(module_name) => {
            let one = match string_expression_arg(call, "url"@, cs) {
                Some(url) => seq![url],
                None => seq![],
            };
            let urls = one + strings_arg(call, "urls"@, cs);
            if urls.len() == 0 {
                Err(
                    "archive_override for module `"@ + module_name
                        + "` must have a literal `url` or non-empty `urls`"@,
                )
            } else {
                match patch_files(strings_arg(call, "patches"@, cs), current, 0, seq![]) {
                    Err(message) => Err(message),
                    Ok(patches) => match patch_strip_arg(
                        "archive_override"@,
                        module_name,
                        call,
                    ) {
                        Err(message) => Err(message),
                        Ok(patch_strip) => Ok(
                            BzlmodArchiveOverrideModel {
                                module_name,
                                urls,
                                integrity: match string_expression_arg(call, "integrity"@, cs) {
                                    Some(integrity) => integrity,
                                    None => seq![],
                                },
                                strip_prefix: string_expression_arg(call, "strip_prefix"@, cs),
                                archive_type: match string_expression_arg(call, "type"@, cs) {
                                    Some(archive_type) => Some(archive_type),
                                    None => string_expression_arg(call, "archive_type"@, cs),
                                },
                                patches,
                                patch_strip,
                            },
                        ),
                    },
                }
            }
        },
    }
}

/// What an `archive_override` call declares.
pub fn bzlmod_archive_override_from_call(
    current_module_file: &str,
    call: &str,
    constants: &Vec<(String, String)>,
) -> (r: Result<BzlmodArchiveOverride, InputError>)
    ensures
        result_view(r) == archive_override(current_module_file@, call@, constants.deep_view()),
{
    let module_name = match bzl_string_expression_arg(call, "module_name", constants) {
        Some(module_name) => module_name,
        None => {
            return Err(
                InputError {
                    message: concat(
                        "archive_override must have a literal string `module_name`: ",
                        call,
                    ),
                },
            );
        },
    };
    let mut urls: Vec<String> = Vec::new();
    match bzl_string_expression_arg(call, "url", constants) {
        Some(url) => {
            urls.push(url);
        },
        None => {},
    }
    let ghost one = urls.deep_view();
    assert(one =~= (match string_expression_arg(call@, "url"@, constants.deep_view()) {
        Some(url) => seq![url],
        None => seq![],
    }));
    let mut more = strings_arg_of(call, "urls", constants);
    let ghost two = more.deep_view();
    urls.append(&mut more);
    assert(urls.deep_view() =~= one + two);
    if urls.len() == 0 {
        return Err(
            InputError {
                message: concat3(
                    "archive_override for module `",
                    module_name.as_str(),
                    "` must have a literal `url` or non-empty `urls`",
                ),
            },
        );
    }
    let integrity = match bzl_string_expression_arg(call, "integrity", constants) {
        Some(integrity) => integrity,
        None => String::new(),
    };
    let strip_prefix = bzl_string_expression_arg(call, "strip_prefix", constants);
    let archive_type = match bzl_string_expression_arg(call, "type", constants) {
        Some(archive_type) => Some(archive_type),
        None => bzl_string_expression_arg(call, "archive_type", constants),
    };
    let patches = match bzlmod_override_patch_paths_from_call(
        current_module_file,
        call,
        constants,
    ) {
        Ok(patches) => patches,
        Err(e) => {
            return Err(e);
        },
    };
    let patch_strip = match bzlmod_override_patch_strip_from_call(
        "archive_override",
        module_name.as_str(),
        call,
    ) {
        Ok(patch_strip) => patch_strip,
        Err(e) => {
            return Err(e);
        },
    };
    Ok(
        BzlmodArchiveOverride {
            module_name,
            urls,
            integrity,
            strip_prefix,
            archive_type,
            patches,
            patch_strip,
        },
    )
}

/// A value that says the same as leaving the argument out.
pub open spec fn is_default_override(value: Text) -> bool {
    trim(value) == "\"\""@ || trim(value) == "''"@ || trim(value) == "[]"@
}

/// Whether a value says the same as leaving the argument out.
pub fn bzl_is_default_override_value(value: &str) -> (r: bool)
    ensures
        r == is_default_override(value@),
{
    let v = trim_of(value);
    same(v, "\"\"") || same(v, "''") || same(v, "[]")
}

/// The message where a call gives an argument that is not supported.
pub open spec fn unsupported_arg(
    directive: Text,
    module_name: Text,
    call: Text,
    arg: Text,
    behavior: Text,
) -> Option<Text> {
    match named_arg(call_args(call), arg, 0) {
        Some(value) if !is_default_override(value) => Some(
            directive + " for module `"@ + module_name + "` uses unsupported `"@ + arg + "`. "@
                + behavior
                + " Buck2 does not implement that behavior yet, so refusing to ignore it: "@ + call,
        ),
        _ => None,
    }
}

/// Refuses an argument that is not supported.
pub fn reject_unsupported_bzlmod_override_arg(
    directive: &str,
    module_name: &str,
    call: &str,
    arg: &str,
    bazel_behavior: &str,
) -> (r: Result<(), InputError>)
    ensures
        match unsupported_arg(directive@, module_name@, call@, arg@, bazel_behavior@) {
            None => r is Ok,
            Some(message) => r matches Err(e) && e.deep_view() == message,
        },
{
    match bzl_call_named_arg_value(call, arg) {
        Some(value) => {
            if bzl_is_default_override_value(value.as_str()) {
                return Ok(());
            }
            let mut message = concat3(directive, " for module `", module_name);
            message.append("` uses unsupported `");
            message.append(arg);
            message.append("`. ");
            message.append(bazel_behavior);
            message.append(
                " Buck2 does not implement that behavior yet, so refusing to ignore it: ",
            );
            message.append(call);
            Err(InputError { message })
        },
        None => Ok(()),
    }
}

/// What a `single_version_override` call declares; nothing where it names no
/// module.
pub open spec fn single_version_override(current: Text, call: Text, cs: Constants) -> Result<
    Option<(Text, BzlmodSingleVersionOverrideModel)>,
    Text,
> {
    let directive = "single_version_override"@;
    match string_expression_arg(call, "module_name"@, cs) {
        None => Ok(None),
        Some(module_name) => {
            let registry = unsupported_arg(
                directive,
                module_name,
                call,
                "registry"@,
                "Bazel uses `registry` to fetch the module from a non-default registry."@,
            );
            let patch_cmds = unsupported_arg(
                directive,
                module_name,
                call,
                "patch_cmds"@,
                "Bazel runs `patch_cmds` after applying patch files."@,
            );
            if registry is Some {
                Err(registry->0)
            } else if patch_cmds is Some {
                Err(patch_cmds->0)
            } else {
                match patch_files(strings_arg(call, "patches"@, cs), current, 0, seq![]) {
                    Err(message) => Err(message),
                    Ok(patches) => match patch_strip_arg(directive, module_name, call) {
                        Err(message) => Err(message),
                        Ok(patch_strip) => Ok(
                            Some(
                                (
                                    module_name,
                                    BzlmodSingleVersionOverrideModel {
                                        version: string_expression_arg(call, "version"@, cs),
                                        patches,
                                        patch_strip,
                                    },
                                ),
                            ),
                        ),
                    },
                }
            }
        },
    }
}

/// What a `single_version_override` call declares.
pub fn bzlmod_single_version_override_from_call(
    current_module_file: &str,
    call: &str,
    constants: &Vec<(String, String)>,
) -> (r: Result<Option<(String, BzlmodSingleVersionOverride)>, InputError>)
    ensures
        result_view(r) == single_version_override(
            current_module_file@,
            call@,
            constants.deep_view(),
        ),
{
    let module_name = match bzl_string_expression_arg(call, "module_name", constants) {
        Some(module_name) => module_name,
        None => {
            return Ok(None);
        },
    };
    match reject_unsupported_bzlmod_override_arg(
        "single_version_override",
        module_name.as_str(),
        call,
        "registry",
        "Bazel uses `registry` to fetch the module from a non-default registry.",
    ) {
        Ok(_) => {},
        Err(e) => {
            return Err(e);
        },
    }
    match reject_unsupported_bzlmod_override_arg(
        "single_version_override",
        module_name.as_str(),
        call,
        "patch_cmds",
        "Bazel runs `patch_cmds` after applying patch files.",
    ) {
        Ok(_) => {},
        Err(e) => {
            return Err(e);
        },
    }
    let version = bzl_string_expression_arg(call, "version", constants);
    let patches = match bzlmod_override_patch_paths_from_call(
        current_module_file,
        call,
        constants,
    ) {
        Ok(patches) => patches,
        Err(e) => {
            return Err(e);
        },
    };
    let patch_strip = match bzlmod_override_patch_strip_from_call(
        "single_version_override",
        module_name.as_str(),
        call,
    ) {
        Ok(patch_strip) => patch_strip,
        Err(e) => {
            return Err(e);
        },
    };
    Ok(Some((module_name, BzlmodSingleVersionOverride { version, patches, patch_strip })))
}

/// What a `local_path_override` call in the module file of a cell gives: the
/// module, and the path from the project root.
pub open spec fn local_path_override(cell: Text, call: Text) -> Result<
    BzlmodLocalPathOverrideModel,
    Text,
> {
    match string_arg(call, "module_name"@) {
        None => Err("local_path_override must have a literal string `module_name`: "@ + call),
        Some(module_name) => match string_arg(call, "path"@) {
            None => Err(
                "local_path_override for module `"@ + module_name
                    + "` must have a literal string `path`"@,
            ),
            Some(path) => match join_path(cell, path) {
                None => Err(
                    "local_path_override for module `"@ + module_name + "` has invalid path `"@
                        + path + "`"@,
                ),
                Some(path) => Ok(
                    BzlmodLocalPathOverrideModel { module_name, path, module_text: seq![] },
                ),
            },
        },
    }
}

/// What a `local_path_override` call in the module file of a cell gives.
pub fn bzlmod_local_path_override_from_call(cell_path: &str, call: &str) -> (r: Result<
    BzlmodLocalPathOverride,
    InputError,
>)
    ensures
        result_view(r) == local_path_override(cell_path@, call@),
{
    let module_name = match bzl_string_arg(call, "module_name") {
        Some(module_name) => module_name,
        None => {
            return Err(
                InputError {
                    message: concat(
                        "local_path_override must have a literal string `module_name`: ",
                        call,
                    ),
                },
            );
        },
    };
    let path = match bzl_string_arg(call, "path") {
        Some(path) => path,
        None => {
            return Err(
                InputError {
                    message: concat3(
                        "local_path_override for module `",
                        module_name.as_str(),
                        "` must have a literal string `path`",
                    ),
                },
            );
        },
    };
    match join_normalized(cell_path, path.as_str()) {
        Some(path) => {
            let module_text = String::new();
            assert(module_text@ =~= seq![]);
            Ok(BzlmodLocalPathOverride { module_name, path, module_text })
        },
        None => {
            let mut message = concat3(
                "local_path_override for module `",
                module_name.as_str(),
                "` has invalid path `",
            );
            message.append(path.as_str());
            message.append("`");
            Err(InputError { message })
        },
    }
}

/// Each label of a patch names a file of the root module, in order.
pub proof fn law_patch_files(
    labels: Seq<Text>,
    current: Text,
    i: int,
    done: Seq<BzlmodRootPatchModel>,
)
    requires
        0 <= i <= labels.len(),
    ensures
        patch_files(labels, current, i, done) matches Ok(out) ==> {
            &&& out.len() == done.len() + labels.len() - i
            &&& forall|j: int| 0 <= j < done.len() ==> #[trigger] out[j] == done[j]
            &&& forall|j: int|
                i <= j < labels.len() ==> include_path(current, #[trigger] labels[j]) == Some(
                    out[done.len() + j - i].path,
                )
        },
        patch_files(labels, current, i, done) is Err <==> exists|j: int|
            i <= j < labels.len() && include_path(current, #[trigger] labels[j]) is None,
    decreases labels.len() - i,
{
    if i < labels.len() {
        if let Some(path) = include_path(current, labels[i]) {
            let next = done.push(BzlmodRootPatchModel { path, content: seq![] });
            law_patch_files(labels, current, i + 1, next);
            if let Ok(out) = patch_files(labels, current, i, done) {
                assert(out[done.len() as int] == next[done.len() as int]);
                assert forall|j: int| 0 <= j < done.len() implies #[trigger] out[j] == done[j] by {
                    assert(out[j] == next[j]);
                }
                assert forall|j: int| i <= j < labels.len() implies include_path(
                    current,
                    #[trigger] labels[j],
                ) == Some(out[done.len() + j - i].path) by {
                    if j > i {
                        assert(next.len() + j - (i + 1) == done.len() + j - i);
                    }
                }
            }
        } else {
            assert(include_path(current, labels[i]) is None);
        }
    }
}

/// An archive that replaces a module is for the module that the call names, comes from its
/// `url` before any of its `urls`, of which there has to be one, and has the other
/// arguments as they are given.
pub proof fn law_archive_override(current: Text, call: Text, cs: Constants)
    ensures
        match archive_override(current, call, cs) {
            Ok(o) => {
                &&& string_expression_arg(call, "module_name"@, cs) == Some(o.module_name)
                &&& o.urls.len() > 0
                &&& string_expression_arg(call, "url"@, cs) is Some ==> o.urls[0]
                    == string_expression_arg(call, "url"@, cs)->0
                &&& forall|i: int|
                    0 <= i < strings_arg(call, "urls"@, cs).len() ==> o.urls.contains(
                        #[trigger] strings_arg(call, "urls"@, cs)[i],
                    )
                &&& string_expression_arg(call, "integrity"@, cs) is Some ==> o.integrity
                    == string_expression_arg(call, "integrity"@, cs)->0
                &&& string_expression_arg(call, "integrity"@, cs) is None ==> o.integrity.len() == 0
                &&& o.strip_prefix == string_expression_arg(call, "strip_prefix"@, cs)
                &&& o.patches.len() == strings_arg(call, "patches"@, cs).len()
            },
            Err(_) => true,
        },
        string_expression_arg(call, "module_name"@, cs) is None ==> archive_override(
            current,
            call,
            cs,
        ) is Err,
        string_expression_arg(call, "url"@, cs) is None && strings_arg(call, "urls"@, cs).len() == 0
            ==> archive_override(current, call, cs) is Err,
{
    law_patch_files(strings_arg(call, "patches"@, cs), current, 0, seq![]);
    if let Ok(o) = archive_override(current, call, cs) {
        let one = match string_expression_arg(call, "url"@, cs) {
            Some(url) => seq![url],
            None => seq![],
        };
        let listed = strings_arg(call, "urls"@, cs);
        assert(o.urls == one + listed);
        assert forall|i: int| 0 <= i < listed.len() implies o.urls.contains(
            #[trigger] listed[i],
        ) by {
            assert(o.urls[one.len() + i] == listed[i]);
        }
    }
}

/// A version that is set for a module is that of the call; what the call asks for beyond
/// versions and patches is refused, unless it says nothing.
pub proof fn law_single_version_override(current: Text, call: Text, cs: Constants)
    ensures
        match single_version_override(current, call, cs) {
            Ok(Some((name, o))) => {
                &&& string_expression_arg(call, "module_name"@, cs) == Some(name)
                &&& o.version == string_expression_arg(call, "version"@, cs)
                &&& o.patches.len() == strings_arg(call, "patches"@, cs).len()
                &&& named_arg(call_args(call), "registry"@, 0) is Some ==> is_default_override(
                    named_arg(call_args(call), "registry"@, 0)->0,
                )
                &&& named_arg(call_args(call), "patch_cmds"@, 0) is Some ==> is_default_override(
                    named_arg(call_args(call), "patch_cmds"@, 0)->0,
                )
            },
            Ok(None) => string_expression_arg(call, "module_name"@, cs) is None,
            Err(_) => true,
        },
{
    law_patch_files(strings_arg(call, "patches"@, cs), current, 0, seq![]);
}

/// The number of stripped directories is the number that is given, and a negative one is
/// refused.
pub proof fn law_patch_strip_argument(function: Text, module_name: Text, call: Text)
    ensures
        named_arg(call_args(call), "patch_strip"@, 0) is None ==> patch_strip_arg(
            function,
            module_name,
            call,
        ) == Ok::<Option<u32>, Text>(None),
        named_arg(call_args(call), "patch_strip"@, 0) matches Some(value) ==> (integer_value(
            trim(value),
        ) matches Some(n) ==> {
            &&& n < 0 ==> patch_strip_arg(function, module_name, call) is Err
            &&& n >= 0 ==> (patch_strip_arg(function, module_name, call) matches Ok(Some(strip))
                && strip == n)
        }),
{
}

} // verus!
