//! What surrounds the analysis: open documents, resolution, dialects, reports and releases.
use vstd::prelude::*;

use crate::canonical;
use crate::documents;
use crate::documents::OpenDocument;
use crate::fixture;
use crate::names;
use crate::paths;
use crate::release;
use crate::release::{Architecture, ArchiveFormat, Asset, InstallPlan, Os, Step};
use crate::resolver;
use crate::resolver::{Lookup, References, ResolverSettings, StartView};
use crate::text;
use crate::tree;
use crate::tree::Dialect;
use crate::{Usage, UsageView};

verus! {

/// Open documents are found by their paths with a slash for each backslash and, where file names
/// do not tell cases apart, with ASCII letters in lower case.
pub proof fn path_keys_have_slashes(path: &str, fold_case: bool, key: String, i: int)
    requires
        call_ensures(documents::normalize_path_key, (path, fold_case), key),
        0 <= i < path@.len(),
    ensures
        key@.len() == path@.len(),
        path@[i] == '\\' ==> key@[i] == '/',
        path@[i] != '\\' && !(fold_case && 65 <= path@[i] as int <= 90) ==> key@[i] == path@[i],
        fold_case && 65 <= path@[i] as int <= 90 ==> key@[i] as int == path@[i] as int + 32,
{
}

/// The text of an open document is that of the first one with the same key; nothing is found
/// where no open document has it.
pub proof fn open_documents_are_found_by_key(
    open: &Vec<OpenDocument>,
    path: &str,
    fold_case: bool,
    found: Option<&str>,
    index: int,
)
    requires
        call_ensures(documents::find_open_text, (open, path, fold_case), found),
    ensures
        0 <= index < open@.len() && documents::path_key(open@[index].path@, fold_case)
            == documents::path_key(path@, fold_case) && (forall|i: int|
            0 <= i < index ==> documents::path_key((#[trigger] open@[i]).path@, fold_case)
                != documents::path_key(path@, fold_case)) ==> text::maybe_str(found) == Some(
            open@[index].text@,
        ),
        (forall|i: int|
            0 <= i < open@.len() ==> documents::path_key((#[trigger] open@[i]).path@, fold_case)
                != documents::path_key(path@, fold_case)) ==> found is None,
{
    first_open_counts(open@, path@, fold_case, index);
}

proof fn first_open_counts(
    open: Seq<OpenDocument>,
    path: Seq<char>,
    fold_case: bool,
    index: int,
)
    ensures
        0 <= index < open.len() && documents::path_key(open[index].path@, fold_case)
            == documents::path_key(path, fold_case) && (forall|i: int|
            0 <= i < index ==> documents::path_key((#[trigger] open[i]).path@, fold_case)
                != documents::path_key(path, fold_case)) ==> documents::open_text(
            open,
            path,
            fold_case,
        ) == Some(open[index].text@),
        (forall|i: int|
            0 <= i < open.len() ==> documents::path_key((#[trigger] open[i]).path@, fold_case)
                != documents::path_key(path, fold_case)) ==> documents::open_text(
            open,
            path,
            fold_case,
        ) is None,
    decreases open.len(),
{
    if open.len() > 0 {
        let rest = open.drop_first();
        first_open_counts(rest, path, fold_case, index - 1);
        let first = open[0];
        assert(forall|i: int| 0 <= i < rest.len() ==> #[trigger] rest[i] == open[i + 1]);
        if forall|i: int|
            0 <= i < index ==> documents::path_key((#[trigger] open[i]).path@, fold_case)
                != documents::path_key(path, fold_case) {
            assert forall|i: int| 0 <= i < index - 1 && i < rest.len() implies documents::path_key(
                (#[trigger] rest[i]).path@,
                fold_case,
            ) != documents::path_key(path, fold_case) by {
                assert(rest[i] == open[i + 1]);
            }
        }
        if forall|i: int|
            0 <= i < open.len() ==> documents::path_key((#[trigger] open[i]).path@, fold_case)
                != documents::path_key(path, fold_case) {
            assert forall|i: int| 0 <= i < rest.len() implies documents::path_key(
                (#[trigger] rest[i]).path@,
                fold_case,
            ) != documents::path_key(path, fold_case) by {
                assert(rest[i] == open[i + 1]);
            }
            assert(first == open[0]);
        }
    }
}

/// Of the texts that a document changes to, the last one counts.
pub proof fn last_changes_count(changes: Vec<String>, found: Option<String>)
    requires
        call_ensures(documents::latest_change_text, (changes,), found),
    ensures
        changes@.len() == 0 ==> found is None,
        changes@.len() > 0 ==> found == Some(changes@[changes@.len() - 1]),
{
}

/// A document goes by the path of its file; else by that of its address, where that has an
/// extension; else it counts as a component source.
pub proof fn documents_go_by_their_paths(
    file: Option<String>,
    address: &str,
    windows: bool,
    path: String,
    has_extension: bool,
)
    requires
        call_ensures(documents::document_path, (file, address, windows), path),
        call_ensures(documents::path_has_extension, (address, windows), has_extension),
    ensures
        file matches Some(file) ==> path@ == file@,
        file is None && address@.len() > 0 && has_extension ==> path@ == address@,
        file is None && (address@.len() == 0 || !has_extension) ==> path@ == "document.tsx"@,
        has_extension <==> paths::extension_of(paths::file_name(address@, windows)) is Some,
{
}

/// Whether `path` ends in `suffix`.
pub open spec fn ends_in(path: Seq<char>, suffix: Seq<char>) -> bool {
    exists|stem: Seq<char>| path == #[trigger] (stem + suffix)
}

proof fn suffixes_are_ends(path: Seq<char>, suffix: Seq<char>)
    ensures
        suffix.is_suffix_of(path) <==> ends_in(path, suffix),
{
    if suffix.is_suffix_of(path) {
        let stem = path.take(path.len() - suffix.len());
        assert(path =~= stem + suffix) by {
            assert(path.subrange(path.len() - suffix.len(), path.len() as int) == suffix);
        }
    }
    if ends_in(path, suffix) {
        let stem = choose|stem: Seq<char>| path == #[trigger] (stem + suffix);
        assert(path.subrange(path.len() - suffix.len(), path.len() as int) =~= suffix);
    }
}

/// An import is resolved to source files only: `.ts`, `.tsx`, `.js` and `.jsx`, and no declaration
/// files.
pub proof fn imports_are_resolved_to_source_files(found: Option<String>, path: Option<String>)
    requires
        call_ensures(resolver::accept_resolution, (found,), path),
    ensures
        found is None ==> path is None,
        found matches Some(file) ==> ({
            let is_source = ends_in(file@, ".ts"@) || ends_in(file@, ".tsx"@) || ends_in(
                file@,
                ".js"@,
            ) || ends_in(file@, ".jsx"@);
            let is_declaration = ends_in(file@, ".d.ts"@) || ends_in(file@, ".d.mts"@) || ends_in(
                file@,
                ".d.cts"@,
            );
            text::maybe_string(path) == (if is_source && !is_declaration {
                Some(file@)
            } else {
                None
            })
        }),
{
    if let Some(file) = found {
        suffixes_are_ends(file@, ".ts"@);
        suffixes_are_ends(file@, ".tsx"@);
        suffixes_are_ends(file@, ".js"@);
        suffixes_are_ends(file@, ".jsx"@);
        suffixes_are_ends(file@, ".d.ts"@);
        suffixes_are_ends(file@, ".d.mts"@);
        suffixes_are_ends(file@, ".d.cts"@);
    }
}

/// Declaration files are told by their endings.
pub proof fn declaration_files_are_rejected(path: &str, rejected: bool, is_source: bool)
    requires
        call_ensures(resolver::is_rejected_dts, (path,), rejected),
        call_ensures(resolver::is_source_file, (path,), is_source),
    ensures
        rejected <==> ends_in(path@, ".d.ts"@) || ends_in(path@, ".d.mts"@) || ends_in(
            path@,
            ".d.cts"@,
        ),
        rejected ==> !is_source,
{
    suffixes_are_ends(path@, ".d.ts"@);
    suffixes_are_ends(path@, ".d.mts"@);
    suffixes_are_ends(path@, ".d.cts"@);
}

/// The configuration files that count for a file are `tsconfig.json` and `jsconfig.json` in its
/// directory, in this order, then those that count for the directory. A file without a directory
/// has none.
pub proof fn configuration_files_are_looked_for_upwards(
    path: &str,
    windows: bool,
    candidates: Vec<String>,
)
    requires
        call_ensures(resolver::list_config_candidates, (path, windows), candidates),
    ensures
        ({
            let found = names::views(candidates@);
            match paths::parent(path@, windows) {
                Some(directory) => found.len() >= 2 && found[0] == paths::inside(
                    directory,
                    "tsconfig.json"@,
                    windows,
                ) && found[1] == paths::inside(directory, "jsconfig.json"@, windows)
                    && found.skip(2) == resolver::config_candidates(directory, windows),
                None => found.len() == 0,
            }
        }),
{
    let found = names::views(candidates@);
    if let Some(directory) = paths::parent(path@, windows) {
        assert(found.skip(2) =~= resolver::config_candidates(directory, windows));
    }
}

/// Of several candidates the first one counts that is there.
pub proof fn first_candidates_count(
    candidates: &Vec<String>,
    present: &Vec<bool>,
    found: Option<String>,
    index: int,
)
    requires
        call_ensures(resolver::pick_present, (candidates, present), found),
    ensures
        0 <= index < candidates@.len() && index < present@.len() && present@[index] && (forall|
            i: int,
        |
            0 <= i < index ==> !#[trigger] present@[i]) ==> text::maybe_string(found) == Some(
            candidates@[index]@,
        ),
        (forall|i: int|
            0 <= i < candidates@.len() && i < present@.len() ==> !#[trigger] present@[i])
            ==> found is None,
{
    first_present_counts(names::views(candidates@), present@, index);
}

proof fn first_present_counts(candidates: Seq<Seq<char>>, present: Seq<bool>, index: int)
    ensures
        0 <= index < candidates.len() && index < present.len() && present[index] && (forall|
            i: int,
        |
            0 <= i < index ==> !#[trigger] present[i]) ==> resolver::first_present(
            candidates,
            present,
        ) == Some(candidates[index]),
        (forall|i: int|
            0 <= i < candidates.len() && i < present.len() ==> !#[trigger] present[i])
            ==> resolver::first_present(candidates, present) is None,
    decreases candidates.len(),
{
    if candidates.len() > 0 && present.len() > 0 {
        let rest = present.drop_first();
        first_present_counts(candidates.drop_first(), rest, index - 1);
        let first = present[0];
        assert(forall|i: int| 0 <= i < rest.len() ==> #[trigger] rest[i] == present[i + 1]);
    }
}

/// The nearest configuration file is the first candidate that is there.
pub proof fn nearest_configuration_files_count(
    path: &str,
    present: &Vec<bool>,
    windows: bool,
    config: Option<String>,
    candidates: Vec<String>,
    index: int,
)
    requires
        call_ensures(resolver::nearest_config, (path, present, windows), config),
        call_ensures(resolver::list_config_candidates, (path, windows), candidates),
        0 <= index < candidates@.len(),
        index < present@.len(),
        present@[index],
        forall|i: int| 0 <= i < index ==> !#[trigger] present@[i],
    ensures
        text::maybe_string(config) == Some(candidates@[index]@),
{
    first_present_counts(names::views(candidates@), present@, index);
}

/// Specifiers are looked up from the directory of their file with the paths of its configuration
/// file; without one from the file itself; and not at all from a file without a directory.
pub proof fn lookups_start_at_the_file(
    from: &str,
    config: Option<String>,
    windows: bool,
    lookup: Option<Lookup>,
)
    requires
        call_ensures(resolver::plan_lookup, (from, config, windows), lookup),
    ensures
        lookup is None <==> paths::parent(from@, windows) is None,
        lookup matches Some(lookup) ==> {
            &&& lookup@.settings.config_file == text::maybe_string(config)
            &&& config is Some ==> lookup@.start == StartView::Directory(
                paths::parent(from@, windows)->0,
            )
            &&& config is None ==> lookup@.start == StartView::File(from@)
        },
{
}

/// Specifiers are resolved as in TypeScript's bundler mode: TypeScript before JavaScript, also
/// where an extension of JavaScript is written; `module` before `main`; `import` before
/// `default`; and without following links.
pub proof fn specifiers_are_resolved_in_bundler_mode(
    config: Option<String>,
    settings: ResolverSettings,
)
    requires
        call_ensures(resolver::resolver_settings, (config,), settings),
    ensures
        settings@.extensions == seq![".ts"@, ".tsx"@, ".js"@, ".jsx"@],
        settings@.extension_alias.len() == 4,
        settings@.extension_alias[0] == (".js"@, seq![".ts"@, ".tsx"@, ".js"@]),
        settings@.extension_alias[1] == (".jsx"@, seq![".tsx"@, ".jsx"@]),
        settings@.extension_alias[2] == (".mjs"@, seq![".mts"@, ".mjs"@]),
        settings@.extension_alias[3] == (".cjs"@, seq![".cts"@, ".cjs"@]),
        settings@.main_files == seq!["index"@],
        settings@.main_fields == seq!["module"@, "main"@],
        settings@.condition_names == seq!["import"@, "default"@],
        !settings@.symlinks,
        settings@.config_file == text::maybe_string(config),
        settings@.references == References::Auto,
{
}

/// A file is parsed in the dialect of the extension of its name, where that is one of the eight
/// that are known, and as TypeScript elsewhere.
pub proof fn files_are_parsed_by_extension(
    path: &str,
    windows: bool,
    dialect: Dialect,
    extension: Seq<char>,
)
    requires
        call_ensures(tree::choose_dialect, (path, windows), dialect),
    ensures
        ({
            let found = paths::extension_of(paths::file_name(path@, windows));
            let is_known = extension == "js"@ || extension == "mjs"@ || extension == "cjs"@
                || extension == "jsx"@ || extension == "ts"@ || extension == "mts"@ || extension
                == "cts"@ || extension == "tsx"@;
            &&& found == Some(extension) && is_known ==> dialect@.extension == extension
            &&& found == Some(extension) && !is_known ==> dialect@.extension == "ts"@
                && !dialect@.declaration
            &&& found is None ==> dialect@.extension == "ts"@ && !dialect@.declaration
        }),
{
}

/// Text that holds neither a number without a finite value nor half a surrogate pair is read as it
/// is.
pub proof fn ordinary_text_is_read_as_it_is(json: Seq<char>, at: int, in_string: bool)
    requires
        0 <= at <= json.len(),
        forall|i: int| 0 <= i < json.len() ==> !#[trigger] tree::infinite_at(json, i),
        forall|i: int| 0 <= i < json.len() ==> !#[trigger] tree::surrogate_at(json, i),
    ensures
        tree::readable(json, at, in_string) == json.skip(at),
    decreases json.len() - at,
{
    if at < json.len() {
        assert(!tree::infinite_at(json, at));
        assert(!tree::surrogate_at(json, at));
        if in_string && json[at] == '\\' && at + 1 < json.len() {
            ordinary_text_is_read_as_it_is(json, at + 2, true);
            assert(json.skip(at) =~= seq![json[at], json[at + 1]] + json.skip(at + 2));
        } else {
            let next = if in_string {
                json[at] != '"'
            } else {
                json[at] == '"'
            };
            ordinary_text_is_read_as_it_is(json, at + 1, next);
            assert(json.skip(at) =~= seq![json[at]] + json.skip(at + 1));
        }
    } else {
        assert(json.skip(at) =~= Seq::<char>::empty());
    }
}

/// A case starts from `entry.tsx`, `entry.jsx`, `entry.ts` or `entry.js` in its directory, in this
/// order.
pub proof fn cases_start_from_their_entry(
    directory: &str,
    windows: bool,
    candidates: Vec<String>,
    present: &Vec<bool>,
    entry: Option<String>,
    index: int,
)
    requires
        call_ensures(fixture::list_entry_candidates, (directory, windows), candidates),
        call_ensures(fixture::find_entry_file, (directory, present, windows), entry),
        0 <= index < present@.len(),
        index < 4,
        present@[index],
        forall|i: int| 0 <= i < index ==> !#[trigger] present@[i],
    ensures
        candidates@.len() == 4,
        candidates@[0]@ == paths::inside(directory@, "entry.tsx"@, windows),
        candidates@[1]@ == paths::inside(directory@, "entry.jsx"@, windows),
        candidates@[2]@ == paths::inside(directory@, "entry.ts"@, windows),
        candidates@[3]@ == paths::inside(directory@, "entry.js"@, windows),
        text::maybe_string(entry) == Some(candidates@[index]@),
{
    let all = names::views(candidates@);
    assert(all == fixture::entry_candidates(directory@, windows));
    assert(all.len() == candidates@.len());
    assert(all[0] == candidates@[0]@);
    assert(all[1] == candidates@[1]@);
    assert(all[2] == candidates@[2]@);
    assert(all[3] == candidates@[3]@);
    first_present_counts(all, present@, index);
}

/// Paths in a report are relative to the directory of the file that it is on.
pub proof fn reports_are_relative_to_their_file(path: &str, windows: bool, directory: String)
    requires
        call_ensures(fixture::report_directory, (path, windows), directory),
    ensures
        paths::parent(path@, windows) matches Some(up) ==> directory@ == up,
        paths::parent(path@, windows) is None ==> directory@ == path@,
{
}

/// A report is the canonical JSON of the usages with relative paths; nothing else of them changes.
pub proof fn reports_have_relative_paths(
    directory: &str,
    usages: Vec<Usage>,
    windows: bool,
    json: String,
    relative: Seq<UsageView>,
)
    requires
        call_ensures(fixture::report_usages, (directory, usages, windows), json),
        relative.len() == usages@.len(),
        forall|i: int|
            0 <= i < relative.len() ==> (#[trigger] relative[i]).kind == usages@[i]@.kind
                && relative[i].tag_name == usages@[i]@.tag_name && relative[i].ranges
                == usages@[i]@.ranges && relative[i].source_file_path == paths::relative(
                directory@,
                usages@[i]@.source_file_path,
                windows,
            ),
    ensures
        json@ == canonical::canonical_json(relative),
{
    let given = names::views(usages@);
    let wanted = fixture::relative_usages(directory@, given, windows);
    assert forall|i: int| 0 <= i < relative.len() implies relative[i] == wanted[i] by {
        assert(relative[i].kind == usages@[i]@.kind);
        assert(given[i] == usages@[i]@);
        assert(wanted[i] == fixture::relative_usage(directory@, given[i], windows));
    }
    assert(relative =~= wanted);
}

/// Archives are named after the version, the architecture and the system that they are for.
pub proof fn archives_are_named_after_platforms(
    version: &str,
    architecture: Architecture,
    os: Os,
    name: String,
)
    requires
        call_ensures(release::asset_name, (version, architecture, os), name),
    ensures
        ({
            let machine = match architecture {
                Architecture::Aarch64 => "aarch64"@,
                Architecture::X86 => "x86"@,
                Architecture::X8664 => "x86_64"@,
            };
            let rest = match os {
                Os::Mac => "apple-darwin"@ + "."@ + "tar.gz"@,
                Os::Linux => "unknown-linux-gnu"@ + "."@ + "tar.gz"@,
                Os::Windows => "pc-windows-msvc"@ + "."@ + "zip"@,
            };
            name@ == "rcl-lsp-"@ + version@ + "-"@ + machine + "-"@ + rest
        }),
{
    let machine = match architecture {
        Architecture::Aarch64 => "aarch64"@,
        Architecture::X86 => "x86"@,
        Architecture::X8664 => "x86_64"@,
    };
    let rest = match os {
        Os::Mac => "apple-darwin"@ + "."@ + "tar.gz"@,
        Os::Linux => "unknown-linux-gnu"@ + "."@ + "tar.gz"@,
        Os::Windows => "pc-windows-msvc"@ + "."@ + "zip"@,
    };
    assert(name@ =~= "rcl-lsp-"@ + version@ + "-"@ + machine + "-"@ + rest);
}

/// A release is installed from its archive for the platform, in a directory of its own, where its
/// executable lies; without such an archive it is not, and the answer is the name of the archive.
pub proof fn releases_are_installed_from_their_archives(
    version: &str,
    assets: &Vec<Asset>,
    architecture: Architecture,
    os: Os,
    plan: Result<InstallPlan, String>,
    name: String,
    index: int,
)
    requires
        call_ensures(release::plan_installation, (version, assets, architecture, os), plan),
        call_ensures(release::asset_name, (version, architecture, os), name),
    ensures
        0 <= index < assets@.len() && assets@[index].name@ == name@ && (forall|i: int|
            0 <= i < index ==> (#[trigger] assets@[i]).name@ != name@) ==> (plan matches Ok(plan)
            && plan@.download_url == assets@[index].download_url@),
        (forall|i: int| 0 <= i < assets@.len() ==> (#[trigger] assets@[i]).name@ != name@) ==> (
        plan matches Err(missing) && missing@ == name@),
        plan matches Ok(plan) ==> {
            &&& plan@.directory == "rcl-lsp-"@ + version@
            &&& os == Os::Windows ==> plan@.executable == plan@.directory + "/rcl-lsp"@ + ".exe"@
                && plan@.archive == ArchiveFormat::Zip
            &&& os != Os::Windows ==> plan@.executable == plan@.directory + "/rcl-lsp"@
                && plan@.archive == ArchiveFormat::GzipTar
        },
{
    first_asset_counts(assets@, name@, index);
    reveal_strlit("");
    if let Ok(found) = plan {
        assert(""@ =~= Seq::<char>::empty());
        if os != Os::Windows {
            assert(found@.directory + "/rcl-lsp"@ + ""@ =~= found@.directory + "/rcl-lsp"@);
        }
    }
}

proof fn first_asset_counts(assets: Seq<Asset>, name: Seq<char>, index: int)
    ensures
        0 <= index < assets.len() && assets[index].name@ == name && (forall|i: int|
            0 <= i < index ==> (#[trigger] assets[i]).name@ != name) ==> release::download_url_of(
            assets,
            name,
        ) == Some(assets[index].download_url@),
        (forall|i: int| 0 <= i < assets.len() ==> (#[trigger] assets[i]).name@ != name)
            ==> release::download_url_of(assets, name) is None,
    decreases assets.len(),
{
    if assets.len() > 0 {
        let rest = assets.drop_first();
        first_asset_counts(rest, name, index - 1);
        let first = assets[0];
        assert(forall|i: int| 0 <= i < rest.len() ==> #[trigger] rest[i] == assets[i + 1]);
    }
}

/// The executable is the one that was found earlier, while it is there; else the one on the search
/// path; else the newest release is asked for.
pub proof fn executables_are_looked_for_in_order(
    cached: Option<String>,
    is_file: bool,
    on_path: Option<String>,
    step: Step,
)
    requires
        call_ensures(release::first_step, (cached, is_file, on_path), step),
    ensures
        cached is Some && is_file ==> step == Step::Ready(cached->0),
        !(cached is Some && is_file) && on_path is Some ==> step == Step::Ready(on_path->0),
        !(cached is Some && is_file) && on_path is None ==> step is CheckForUpdate,
{
}

/// A release is fetched if and only if its executable is not there; what belongs to another
/// version is stale.
pub proof fn releases_are_fetched_once(
    plan: InstallPlan,
    is_file: bool,
    step: Step,
    entry: Option<&str>,
    stale: bool,
)
    requires
        call_ensures(release::installation_step, (plan, is_file), step),
        call_ensures(release::is_stale, (entry, &plan), stale),
    ensures
        is_file ==> step == Step::Ready(plan.executable),
        !is_file ==> step == Step::Download(plan),
        stale <==> !(entry matches Some(name) && name@ == plan.directory@),
{
}

/// Whether `name` is that of a file of declarations only: `.d.` stands in it behind its beginning
/// where its extension is `ts`, and right before its extension where that is `mts` or `cts`.
pub open spec fn is_declaration_name(name: Seq<char>, extension: Seq<char>) -> bool {
    exists|stem: Seq<char>, middle: Seq<char>|
        stem.len() > 0 && name == #[trigger] (stem.push('.').push('d').push('.') + middle) && (extension
            == "ts"@ || middle == extension && (extension == "mts"@ || extension == "cts"@))
}

/// A file whose name says so is parsed as declarations.
pub proof fn declaration_files_are_parsed_as_such(
    path: &str,
    windows: bool,
    dialect: Dialect,
    extension: Seq<char>,
)
    requires
        call_ensures(tree::choose_dialect, (path, windows), dialect),
        paths::extension_of(paths::file_name(path@, windows)) == Some(extension),
        tree::known_extension(extension),
    ensures
        dialect@.declaration <==> is_declaration_name(
            paths::file_name(path@, windows),
            extension,
        ),
{
    let name = paths::file_name(path@, windows);
    reveal_strlit("ts");
    reveal_strlit("mts");
    reveal_strlit("cts");
    assert("ts"@.len() == 2 && "mts"@.len() == 3 && "cts"@.len() == 3);
    dot_stands_at(name);
    let dot = paths::last_dot(name)->0;
    assert(extension =~= name.skip(dot + 1));
    if dialect@.declaration {
        let at: int = if extension == "ts"@ {
            choose|at: int| 0 < at && #[trigger] tree::declaration_mark_at(name, at)
        } else {
            name.len() - 6
        };
        let stem = name.take(at);
        let middle = name.skip(at + 3);
        assert(name =~= stem.push('.').push('d').push('.') + middle);
        if extension != "ts"@ {
            assert(name.skip(name.len() - 3) =~= extension);
        }
    }
    if is_declaration_name(name, extension) {
        let (stem, middle) = choose|stem: Seq<char>, middle: Seq<char>|
            stem.len() > 0 && name == #[trigger] (stem.push('.').push('d').push('.') + middle) && (extension == "ts"@
                || middle == extension && (extension == "mts"@ || extension == "cts"@));
        let at = stem.len() as int;
        assert(name[at] == '.' && name[at + 1] == 'd' && name[at + 2] == '.');
        assert(tree::declaration_mark_at(name, at));
    }
}

proof fn dot_stands_at(name: Seq<char>)
    ensures
        paths::last_dot(name) matches Some(at) ==> 0 <= at < name.len() && name[at] == '.',
    decreases name.len(),
{
    if name.len() > 0 {
        dot_stands_at(name.drop_last());
    }
}

/// Whatever the disk holds, an import is resolved to a source file or to nothing, and nothing is
/// resolved in a file without a directory.
pub proof fn resolved_imports_are_source_files(
    from: &str,
    specifier: &str,
    path: Option<String>,
)
    requires
        call_ensures(resolver::resolve_import, (from, specifier), path),
    ensures
        path matches Some(path) ==> ends_in(path@, ".ts"@) || ends_in(path@, ".tsx"@) || ends_in(
            path@,
            ".js"@,
        ) || ends_in(path@, ".jsx"@),
        path matches Some(path) ==> !ends_in(path@, ".d.ts"@) && !ends_in(path@, ".d.mts"@)
            && !ends_in(path@, ".d.cts"@),
        exists|windows: bool| #[trigger]
            paths::on_this_system(windows) && (paths::parent(from@, windows) is None
                ==> path is None),
{
    if let Some(path) = path {
        suffixes_are_ends(path@, ".ts"@);
        suffixes_are_ends(path@, ".tsx"@);
        suffixes_are_ends(path@, ".js"@);
        suffixes_are_ends(path@, ".jsx"@);
        suffixes_are_ends(path@, ".d.ts"@);
        suffixes_are_ends(path@, ".d.mts"@);
        suffixes_are_ends(path@, ".d.cts"@);
    }
    let (config, windows) = choose|config: Option<Seq<char>>, windows: bool|
        paths::on_this_system(windows) && #[trigger] resolver::nearest_on_disk(
            from@,
            config,
            windows,
        ) && resolver::resolved_with(
            from@,
            specifier@,
            config,
            text::maybe_string(path),
            windows,
        );
    assert(paths::on_this_system(windows));
}

/// What is resolved is what the resolver finds with the settings for the nearest configuration
/// file, from the directory of the file, or from the file itself where it has none; unless that is
/// no source file.
pub proof fn imports_are_resolved_with_the_nearest_configuration(
    from: &str,
    specifier: &str,
    path: Option<String>,
) -> (seen: (Option<Seq<char>>, Option<Seq<char>>, bool))
    requires
        call_ensures(resolver::resolve_import, (from, specifier), path),
    ensures
        paths::on_this_system(seen.2),
        resolver::nearest_on_disk(from@, seen.0, seen.2),
        paths::parent(from@, seen.2) matches Some(directory) ==> resolver::found_by(
            resolver::LookupView {
                settings: resolver::bundler_settings(seen.0),
                start: if seen.0 is Some {
                    StartView::Directory(directory)
                } else {
                    StartView::File(from@)
                },
            },
            specifier@,
            seen.1,
        ) && text::maybe_string(path) == (match seen.1 {
            Some(found) => if resolver::source_file(found) {
                Some(found)
            } else {
                None
            },
            None => None,
        }),
{
    let (config, windows) = choose|config: Option<Seq<char>>, windows: bool|
        paths::on_this_system(windows) && #[trigger] resolver::nearest_on_disk(
            from@,
            config,
            windows,
        ) && resolver::resolved_with(
            from@,
            specifier@,
            config,
            text::maybe_string(path),
            windows,
        );
    match resolver::lookup_of(from@, config, windows) {
        Some(lookup) => {
            let found = choose|found: Option<Seq<char>>|
                #[trigger] resolver::found_by(lookup, specifier@, found) && text::maybe_string(path)
                    == resolver::accepted(found);
            (config, found, windows)
        },
        None => (config, None, windows),
    }
}

/// The nearest configuration file on the disk is the first candidate that the disk says is there;
/// where it says so of none, there is none.
pub proof fn nearest_files_are_seen_on_the_disk(
    path: &str,
    windows: bool,
    config: Option<String>,
) -> (present: Seq<bool>)
    requires
        call_ensures(resolver::find_nearest_config, (path, windows), config),
    ensures
        ({
            let candidates = resolver::config_candidates(path@, windows);
            &&& present.len() <= candidates.len()
            &&& forall|i: int|
                0 <= i < present.len() ==> resolver::seen_as_file(
                    candidates[i],
                    #[trigger] present[i],
                )
            &&& config is None ==> present.len() == candidates.len() && forall|i: int|
                0 <= i < present.len() ==> !#[trigger] present[i]
            &&& config matches Some(config) ==> exists|i: int|
                0 <= i < present.len() && #[trigger] present[i] && config@ == candidates[i]
                    && forall|j: int| 0 <= j < i ==> !#[trigger] present[j]
        }),
{
    let candidates = resolver::config_candidates(path@, windows);
    let present = choose|present: Seq<bool>|
        #[trigger] resolver::looked_for(candidates, present) && text::maybe_string(config)
            == resolver::first_present(candidates, present);
    present_decides(candidates, present);
    present
}

proof fn present_decides(candidates: Seq<Seq<char>>, present: Seq<bool>)
    requires
        present.len() <= candidates.len(),
    ensures
        resolver::first_present(candidates, present) is None ==> forall|i: int|
            0 <= i < present.len() ==> !#[trigger] present[i],
        resolver::first_present(candidates, present) matches Some(found) ==> exists|i: int|
            0 <= i < present.len() && #[trigger] present[i] && found == candidates[i] && forall|
                j: int,
            |
                0 <= j < i ==> !#[trigger] present[j],
    decreases present.len(),
{
    if present.len() > 0 {
        let rest = present.drop_first();
        let others = candidates.drop_first();
        if present[0] {
            assert(present[0]);
        } else {
            present_decides(others, rest);
            if let Some(found) = resolver::first_present(others, rest) {
                let i = choose|i: int|
                    0 <= i < rest.len() && #[trigger] rest[i] && found == others[i] && forall|
                        j: int,
                    |
                        0 <= j < i ==> !#[trigger] rest[j];
                assert(present[i + 1]);
                assert forall|j: int| 0 <= j < i + 1 implies !#[trigger] present[j] by {
                    if j > 0 {
                        assert(!rest[j - 1]);
                    }
                }
            } else {
                assert forall|i: int| 0 <= i < present.len() implies !#[trigger] present[i] by {
                    if i > 0 {
                        assert(!rest[i - 1]);
                    }
                }
            }
        }
    }
}

/// A document goes by the file that the system gives for its address; else by the path of the
/// address where that has an extension, and else as a component source. An address whose path does
/// not start at the root is that of no file.
pub proof fn addresses_lead_to_paths(uri: &str, path: String) -> (seen: (Option<Seq<char>>, bool))
    requires
        call_ensures(documents::path_from_uri, (uri,), path),
    ensures
        paths::on_this_system(seen.1),
        documents::file_given(uri@, seen.0),
        ({
            let address = documents::address_path(uri@);
            let named = paths::extension_of(paths::file_name(address, seen.1)) is Some;
            &&& address.len() == 0 || address[0] != '/' ==> seen.0 is None
            &&& seen.0 matches Some(file) ==> path@ == file
            &&& seen.0 is None && address.len() > 0 && named ==> path@ == address
            &&& seen.0 is None && (address.len() == 0 || !named) ==> path@ == "document.tsx"@
        }),
{
    choose|file: Option<Seq<char>>, windows: bool|
        paths::on_this_system(windows) && documents::file_given(uri@, file) && (
        !documents::starts_at_root(documents::address_path(uri@)) ==> file is None) && path@
            == #[trigger] documents::path_of_document(
            file,
            documents::address_path(uri@),
            windows,
        )
}

/// Outside of strings a number without a finite value is read as zero; inside of strings half a
/// surrogate pair is read as the replacement character.
pub proof fn unreadable_text_is_replaced(json: Seq<char>, at: int)
    requires
        0 <= at < json.len(),
    ensures
        at + 6 <= json.len() && json.subrange(at, at + 6) == seq!['1', 'e', '+', '4', '0', '0']
            ==> tree::readable(json, at, false) == seq!['0'] + tree::readable(json, at + 6, false),
        at + 4 <= json.len() && json.subrange(at, at + 3) == seq!['\\', 'u', 'd'] && ('8'
            <= json[at + 3] <= '9' || 'a' <= json[at + 3] <= 'f') ==> tree::readable(
            json,
            at,
            true,
        ) == seq!['\\', 'u', 'f', 'f', 'f', 'd'] + tree::readable(json, at + 2, true),
{
    if at + 6 <= json.len() {
        let part = json.subrange(at, at + 6);
        assert(part[0] == json[at] && part[1] == json[at + 1] && part[2] == json[at + 2] && part[3]
            == json[at + 3] && part[4] == json[at + 4] && part[5] == json[at + 5]);
    }
    if at + 4 <= json.len() {
        let part = json.subrange(at, at + 3);
        assert(part[0] == json[at] && part[1] == json[at + 1] && part[2] == json[at + 2]);
    }
}

} // verus!
